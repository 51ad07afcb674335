use cargo_ohrs::substitute::{
    finish, substitute, ABORT_TS, EXTERNAL_OBJECT_CLASS,
};

#[test]
fn whole_word_buffer_is_replaced_and_noted() {
    let out = substitute("", "read(): Buffer\nwrite(b: Buffer): void\n").unwrap();
    assert_eq!(out.text, "\n\nread(): ArrayBuffer\nwrite(b: ArrayBuffer): void\n");
    assert!(out.buffer_note);
    assert!(!out.abort_note);
}

#[test]
fn buffer_inside_a_longer_word_is_left_alone() {
    for body in ["buffercount", "MyBuffer", "Buffers", "Buffer_", "ArrayBuffer", "Bufferé"] {
        let out = substitute("", body).unwrap();
        assert_eq!(out.text, body);
        assert!(!out.buffer_note);
    }
}

#[test]
fn buffer_next_to_punctuation_is_a_whole_word() {
    let out = substitute("", "Array<Buffer>|Buffer-Buffer").unwrap();
    assert_eq!(out.text, "\n\nArray<ArrayBuffer>|ArrayBuffer-ArrayBuffer");
    assert!(out.buffer_note);
}

#[test]
fn abort_signal_adds_the_stand_in_declarations() {
    let out = substitute("// head\n", "run(signal: AbortSignal): void\n").unwrap();
    assert_eq!(
        out.text,
        format!("// head\n{}\n\nrun(signal: AbortSignal): void\n", ABORT_TS)
    );
    assert!(out.abort_note);
    assert!(!out.buffer_note);
}

#[test]
fn abort_signal_inside_a_longer_word_is_left_alone() {
    let out = substitute("", "MyAbortSignal AbortSignals").unwrap();
    assert_eq!(out.text, "MyAbortSignal AbortSignals");
    assert!(!out.abort_note);
}

#[test]
fn external_object_marker_adds_the_class_without_a_gap() {
    let out = substitute("", "get(): ExternalObject<Handle>\n").unwrap();
    assert_eq!(out.text, format!("{}get(): ExternalObject<Handle>\n", EXTERNAL_OBJECT_CLASS));
    assert!(!out.buffer_note);
    assert!(!out.abort_note);
}

#[test]
fn external_object_without_the_angle_bracket_is_no_marker() {
    let out = substitute("", "ExternalObject").unwrap();
    assert_eq!(out.text, "ExternalObject");
}

#[test]
fn all_three_fragments_come_in_order() {
    let body = "a: Buffer\nb: AbortSignal\nc: ExternalObject<T>\n";
    let out = substitute("H", body).unwrap();
    assert_eq!(
        out.text,
        format!(
            "H{}\n\n{}a: ArrayBuffer\nb: AbortSignal\nc: ExternalObject<T>\n",
            ABORT_TS, EXTERNAL_OBJECT_CLASS
        )
    );
    assert!(out.buffer_note);
    assert!(out.abort_note);
}

#[test]
fn text_without_markers_passes_unchanged() {
    let out = substitute("head", "export declare function f(): void\n").unwrap();
    assert_eq!(out.text, "headexport declare function f(): void\n");
    assert!(!out.buffer_note);
    assert!(!out.abort_note);
    let empty = substitute("", "").unwrap();
    assert_eq!(empty.text, "");
}

#[test]
fn a_second_run_over_replaced_text_changes_nothing() {
    let first = substitute("", "read(): Buffer\n").unwrap();
    let second = substitute("", first.text.as_str()).unwrap();
    assert_eq!(second.text, first.text);
    assert!(!second.buffer_note);
    assert!(!second.abort_note);
}

#[test]
fn finish_follows_what_the_matcher_found() {
    assert_eq!(finish("p", "body", false, false).text, "pbody");
    assert_eq!(finish("p", "body", true, false).text, "p\n\nbody");
    assert_eq!(finish("p", "body", false, true).text, format!("p{}\n\nbody", ABORT_TS));
    assert_eq!(
        finish("p", "x ExternalObject<", true, true).text,
        format!("p{}\n\n{}x ExternalObject<", ABORT_TS, EXTERNAL_OBJECT_CLASS)
    );
    let out = finish("", "", true, false);
    assert!(out.buffer_note);
    assert!(!out.abort_note);
}
