//! What holds of the assembler as a whole.

use vstd::prelude::*;
use crate::assemble::{assembled, processed, rendered_all, Assembled};
use crate::error::AssembleError;
use crate::merge::{
    class_table, group_of, is_class, is_plain, lemma_class_table_holds_classes,
    lemma_members_every, lemma_plain_members_every, members_of, plain_members_of,
};
use crate::record::{
    every, lemma_sorted_append, lemma_sorted_move_back, lemma_text_le_antisym, same_rank,
    sorted_records, Record, TypeDefKind,
};
use crate::substitute::{
    header_for, regex_is_match, substituted, SubstitutedText, ABORT_PATTERN, BUFFER_PATTERN,
    EXTERNAL_OBJECT_MARKER,
};
use crate::text::contains_text;
use crate::render::{
    alias_line, braced, declaration_body, export_prefix, union_of, variant_list,
};

verus! {

/// Assembling is a function of its input. Two runs over the same decoded lines, in
/// the same order, in the same mode and under the same header, each ending as
/// `process_type_def` promises, give the same text and the same export list, or fail
/// alike.
pub proof fn law_same_input_same_output(
    first: Result<Assembled, AssembleError>,
    second: Result<Assembled, AssembleError>,
    decoded: Seq<Option<Record>>,
    const_enum: bool,
    header: Seq<char>,
)
    requires
        first == processed(decoded, const_enum, header),
        second == processed(decoded, const_enum, header),
    ensures
        first == second,
{
}

/// Where a class arrives in the stream makes no difference. Let `c` be a `Struct`
/// record and let no record of `y` be a `Struct` of the same name. Then it is all one
/// whether `c` arrives in front of `y` or behind it: the records sort alike, so each
/// class receives the same member blocks in the same order, and text and export
/// list come out the same.
pub proof fn law_class_position_is_irrelevant(
    x: Seq<Record>,
    c: Record,
    y: Seq<Record>,
    z: Seq<Record>,
    const_enum: bool,
    header: Seq<char>,
)
    requires
        c.kind == TypeDefKind::Struct,
        forall|i: int|
            0 <= i < y.len() ==> !((#[trigger] y[i]).kind == TypeDefKind::Struct && y[i].name
                == c.name),
    ensures
        sorted_records(x + seq![c] + y + z) == sorted_records(x + y + seq![c] + z),
        class_table(sorted_records(x + seq![c] + y + z)) == class_table(
            sorted_records(x + y + seq![c] + z),
        ),
        assembled(x + seq![c] + y + z, const_enum, header) == assembled(
            x + y + seq![c] + z,
            const_enum,
            header,
        ),
{
    assert forall|i: int| 0 <= i < y.len() implies !same_rank(c, #[trigger] y[i]) by {
        if same_rank(c, y[i]) {
            lemma_text_le_antisym(c.name, y[i].name);
        }
    }
    lemma_sorted_move_back(x, c, y);
    lemma_sorted_append(x + seq![c] + y, z);
    lemma_sorted_append(x + y + seq![c], z);
}

/// Rendering a sequence of records in two parts gives the two texts one after the
/// other.
pub proof fn lemma_rendered_all_concat(
    a: Seq<Record>,
    b: Seq<Record>,
    const_enum: bool,
    indent: nat,
    ambient: bool,
)
    ensures
        rendered_all(a + b, const_enum, indent, ambient) == rendered_all(
            a,
            const_enum,
            indent,
            ambient,
        ) + rendered_all(b, const_enum, indent, ambient),
    decreases b.len(),
{
    if b.len() == 0 {
        assert(a + b =~= a);
        assert(rendered_all(a, const_enum, indent, ambient) + Seq::<char>::empty() =~= rendered_all(
            a,
            const_enum,
            indent,
            ambient,
        ));
    } else {
        lemma_rendered_all_concat(a, b.drop_last(), const_enum, indent, ambient);
        assert((a + b).drop_last() =~= a + b.drop_last());
        assert((a + b).last() == b.last());
        assert(rendered_all(a + b, const_enum, indent, ambient) =~= rendered_all(
            a,
            const_enum,
            indent,
            ambient,
        ) + rendered_all(b, const_enum, indent, ambient));
    }
}

/// In every group the classes come first. The records of a group are its classes
/// followed by its plain records, no class stands among the plain records, and the
/// text of the group is the text of all its classes followed by the text of all the
/// others.
pub proof fn law_classes_are_rendered_first(
    sorted: Seq<Record>,
    ns: Option<Seq<char>>,
    const_enum: bool,
    indent: nat,
    ambient: bool,
)
    ensures
        group_of(sorted, ns).defs == members_of(class_table(sorted), ns) + plain_members_of(
            sorted,
            ns,
        ),
        every(members_of(class_table(sorted), ns), |r: Record| is_class(r)),
        every(plain_members_of(sorted, ns), |r: Record| !is_class(r)),
        forall|i: int, j: int|
            0 <= i < j < group_of(sorted, ns).defs.len() && is_class(group_of(sorted, ns).defs[j])
                ==> is_class(group_of(sorted, ns).defs[i]),
        rendered_all(group_of(sorted, ns).defs, const_enum, indent, ambient) == rendered_all(
            members_of(class_table(sorted), ns),
            const_enum,
            indent,
            ambient,
        ) + rendered_all(plain_members_of(sorted, ns), const_enum, indent, ambient),
{
    let classes = members_of(class_table(sorted), ns);
    let plain = plain_members_of(sorted, ns);
    lemma_class_table_holds_classes(sorted);
    lemma_members_every(class_table(sorted), ns, |r: Record| is_class(r));
    lemma_plain_members_every(sorted, ns, |r: Record| true);
    assert forall|i: int| 0 <= i < plain.len() implies !is_class(#[trigger] plain[i]) by {
        assert(is_plain(plain[i]));
    }
    let defs = group_of(sorted, ns).defs;
    assert forall|i: int, j: int| 0 <= i < j < defs.len() && is_class(defs[j]) implies is_class(
        defs[i],
    ) by {
        if j >= classes.len() {
            assert(defs[j] == plain[j - classes.len()]);
        }
        assert(defs[i] == classes[i]);
    }
    lemma_rendered_all_concat(classes, plain, const_enum, indent, ambient);
}

/// A renamed class keeps its original name alive. The declaration of a `Struct`
/// record is its class; where the record has an original name other than its name,
/// the line `export type ORIGINAL = NAME` follows, and where it has none, or the
/// same, nothing follows.
pub proof fn law_renamed_class_gets_an_alias(rec: Record, const_enum: bool, ambient: bool)
    requires
        rec.kind == TypeDefKind::Struct,
    ensures
        rec.original_name matches Some(original) ==> (original != rec.name ==> declaration_body(
            rec,
            const_enum,
            ambient,
        ) == braced(export_prefix(ambient) + " class "@, rec.name, rec.def) + ("\nexport type "@
            + original + " = "@ + rec.name)),
        rec.original_name is None || rec.original_name == Some(rec.name) ==> declaration_body(
            rec,
            const_enum,
            ambient,
        ) == braced(export_prefix(ambient) + " class "@, rec.name, rec.def),
{
    let class = braced(export_prefix(ambient) + " class "@, rec.name, rec.def);
    if rec.original_name is None || rec.original_name == Some(rec.name) {
        assert(alias_line(rec) =~= Seq::<char>::empty());
        assert(class + alias_line(rec) =~= class);
    }
}

/// A string enum has two shapes. With `const_enum` it is a `const enum` block with
/// its body as it stands; without, it is a union type of the variants in its body.
pub proof fn law_string_enum_has_two_shapes(rec: Record, ambient: bool)
    requires
        rec.kind == TypeDefKind::StringEnum,
    ensures
        declaration_body(rec, true, ambient) == braced(
            export_prefix(ambient) + " const enum "@,
            rec.name,
            rec.def,
        ),
        declaration_body(rec, false, ambient) == "export type "@ + rec.name + " = "@ + union_of(
            variant_list(rec.def),
        ) + ";"@,
{
}

/// The pass leaves alone a text in which the pattern matcher finds neither a
/// `Buffer` word nor an `AbortSignal` word and which holds no external-handle
/// marker: nothing is replaced, no note is raised and the header gains nothing. So
/// a second run over such a text changes nothing.
pub proof fn law_settled_text_is_left_alone(prefix: Seq<char>, body: Seq<char>)
    requires
        regex_is_match(BUFFER_PATTERN@, body) == Some(false),
        regex_is_match(ABORT_PATTERN@, body) == Some(false),
        !contains_text(body, EXTERNAL_OBJECT_MARKER@),
    ensures
        substituted(prefix, body) == Some(
            SubstitutedText { text: prefix + body, buffer_note: false, abort_note: false },
        ),
{
    assert(header_for(prefix, body, false, false) =~= prefix);
}

} // verus!
