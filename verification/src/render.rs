//! Renders one record as declaration text.

use vstd::prelude::*;
use crate::indent::{reindent, reindented};
use crate::record::{Record, TypeDefKind, TypeDefLine};
use crate::text::{
    chars_of, find_char, first_index_of, lemma_first_index_bounds, push_range, push_str,
    string_of, trim_range, trimmed,
};

verus! {

/// The export prefix: the short one inside a namespace, the declaring one at the
/// top level.
pub open spec fn export_prefix(ambient: bool) -> Seq<char> {
    if ambient {
        "export"@
    } else {
        "export declare"@
    }
}

/// A block declaration: the head, the name, and the body between braces on lines of
/// their own.
pub open spec fn braced(head: Seq<char>, name: Seq<char>, def: Seq<char>) -> Seq<char> {
    head + name + " {\n"@ + def + "\n}"@
}

/// The variants of a string enum as a union: the pieces of `list` between commas,
/// each trimmed, joined by ` | `.
pub open spec fn union_of(list: Seq<char>) -> Seq<char>
    decreases list.len(),
{
    let k = first_index_of(list, ',');
    if 0 <= k < list.len() {
        trimmed(list.subrange(0, k)) + " | "@ + union_of(list.subrange(k + 1, list.len() as int))
    } else {
        trimmed(list)
    }
}

/// The variant list of a string enum: all that stands behind the first `=` of the
/// body.
pub open spec fn variant_list(def: Seq<char>) -> Seq<char> {
    def.subrange(first_index_of(def, '=') + 1, def.len() as int)
}

/// The line that keeps the original name of a renamed class alive, or nothing where
/// the class was not renamed.
pub open spec fn alias_line(rec: Record) -> Seq<char> {
    match rec.original_name {
        Some(original) => if original != rec.name {
            "\nexport type "@ + original + " = "@ + rec.name
        } else {
            Seq::empty()
        },
        None => Seq::empty(),
    }
}

/// The documentation in front of a declaration, or nothing.
pub open spec fn doc_text(rec: Record) -> Seq<char> {
    match rec.js_doc {
        Some(doc) => doc,
        None => Seq::empty(),
    }
}

/// Whether `rec` can be rendered: a string enum that is rendered as a union needs
/// an `=` in its body.
pub open spec fn renderable(rec: Record, const_enum: bool) -> bool {
    rec.kind == TypeDefKind::StringEnum && !const_enum ==> first_index_of(rec.def, '=')
        < rec.def.len()
}

/// Whether every record of `defs` can be rendered.
pub open spec fn all_renderable(defs: Seq<Record>, const_enum: bool) -> bool {
    forall|i: int| 0 <= i < defs.len() ==> renderable(#[trigger] defs[i], const_enum)
}

/// The declaration of `rec` as written before it is re-indented, without its
/// documentation.
pub open spec fn declaration_body(rec: Record, const_enum: bool, ambient: bool) -> Seq<char> {
    match rec.kind {
        TypeDefKind::Interface => braced("export interface "@, rec.name, rec.def),
        TypeDefKind::Enum => braced(
            export_prefix(ambient) + if const_enum {
                " const enum "@
            } else {
                " enum "@
            },
            rec.name,
            rec.def,
        ),
        TypeDefKind::StringEnum => if const_enum {
            braced(export_prefix(ambient) + " const enum "@, rec.name, rec.def)
        } else {
            "export type "@ + rec.name + " = "@ + union_of(variant_list(rec.def)) + ";"@
        },
        TypeDefKind::Struct => braced(export_prefix(ambient) + " class "@, rec.name, rec.def)
            + alias_line(rec),
        TypeDefKind::Fn => export_prefix(ambient) + " "@ + rec.def,
        TypeDefKind::Const => rec.def,
        TypeDefKind::Impl => rec.def,
    }
}

/// The declaration of `rec` as written before it is re-indented: its documentation,
/// then the declaration itself.
pub open spec fn declaration(rec: Record, const_enum: bool, ambient: bool) -> Seq<char> {
    doc_text(rec) + declaration_body(rec, const_enum, ambient)
}

/// The declaration of `rec` as it is emitted: re-indented by brace depth from the
/// base indent.
pub open spec fn rendered(rec: Record, const_enum: bool, indent: nat, ambient: bool) -> Seq<
    char,
> {
    reindented(declaration(rec, const_enum, ambient), indent)
}

/// The export prefix: `export` inside a namespace, `export declare` at the top
/// level.
pub fn export_declare(ambient: bool) -> (prefix: String)
    ensures
        prefix@ == export_prefix(ambient),
{
    if ambient {
        return String::from_str("export");
    }
    return String::from_str("export declare");
}

/// Whether `line` can be rendered in the given mode; see [`renderable`].
pub fn is_renderable(line: &TypeDefLine, const_enum: bool) -> (r: bool)
    ensures
        r == renderable(line@, const_enum),
{
    if line.kind == TypeDefKind::StringEnum && !const_enum {
        let def = chars_of(line.def.as_str());
        let eq = find_char(&def, 0, def.len(), '=');
        assert(def@.subrange(0, def.len() as int) =~= def@);
        eq < def.len()
    } else {
        true
    }
}

/// Appends the union of the variants in `list[from..to]` to `out`.
fn push_union(out: &mut Vec<char>, list: &Vec<char>, from: usize, to: usize)
    requires
        from <= to <= list.len(),
    ensures
        final(out)@ == old(out)@ + union_of(list@.subrange(from as int, to as int)),
{
    let mut pos: usize = from;
    assert(out@ + union_of(list@.subrange(from as int, to as int)) =~= old(out)@ + union_of(
        list@.subrange(from as int, to as int),
    ));
    loop
        invariant_except_break
            from <= pos <= to <= list.len(),
            out@ + union_of(list@.subrange(pos as int, to as int)) == old(out)@ + union_of(
                list@.subrange(from as int, to as int),
            ),
        ensures
            out@ == old(out)@ + union_of(list@.subrange(from as int, to as int)),
        decreases to - pos,
    {
        let ghost rest = list@.subrange(pos as int, to as int);
        let ghost before = out@;
        let comma: usize = find_char(list, pos, to, ',');
        let (a, b) = trim_range(list, pos, comma);
        push_range(out, list, a, b);
        proof {
            lemma_first_index_bounds(rest, ',');
            assert(rest.subrange(0, comma - pos) =~= list@.subrange(pos as int, comma as int));
        }
        if comma < to {
            push_str(out, " | ");
            proof {
                let tail = list@.subrange(comma + 1, to as int);
                assert(rest.subrange(comma - pos + 1, rest.len() as int) =~= tail);
                assert(out@ + union_of(tail) =~= before + (trimmed(
                    list@.subrange(pos as int, comma as int),
                ) + " | "@ + union_of(tail)));
            }
            pos = comma + 1;
        } else {
            proof {
                assert(rest.subrange(0, comma - pos) =~= rest);
            }
            break ;
        }
    }
}

/// Appends a block declaration to `out`; see [`braced`].
fn push_braced(out: &mut Vec<char>, prefix: &str, keyword: &str, name: &str, def: &str)
    ensures
        final(out)@ == old(out)@ + braced(prefix@ + keyword@, name@, def@),
{
    push_str(out, prefix);
    push_str(out, keyword);
    push_str(out, name);
    push_str(out, " {\n");
    push_str(out, def);
    push_str(out, "\n}");
    assert(out@ =~= old(out)@ + braced(prefix@ + keyword@, name@, def@));
}

/// The declaration of `line` as written before it is re-indented; see
/// [`declaration`].
pub fn declaration_chars(line: &TypeDefLine, const_enum: bool, ambient: bool) -> (out: Vec<char>)
    requires
        renderable(line@, const_enum),
    ensures
        out@ == declaration(line@, const_enum, ambient),
{
    let mut out: Vec<char> = Vec::new();
    match &line.js_doc {
        Some(doc) => {
            push_str(&mut out, doc.as_str());
        },
        None => {},
    }
    assert(out@ =~= doc_text(line@));
    let prefix: &str = if ambient {
        "export"
    } else {
        "export declare"
    };
    let name = line.name.as_str();
    let def = line.def.as_str();
    match line.kind {
        TypeDefKind::Interface => {
            push_braced(&mut out, "export interface ", "", name, def);
            assert("export interface "@ + ""@ =~= "export interface "@) by {
                reveal_strlit("");
            }
        },
        TypeDefKind::Enum => {
            let keyword: &str = if const_enum {
                " const enum "
            } else {
                " enum "
            };
            push_braced(&mut out, prefix, keyword, name, def);
        },
        TypeDefKind::StringEnum => {
            if const_enum {
                push_braced(&mut out, prefix, " const enum ", name, def);
            } else {
                let body = chars_of(def);
                let first: usize = find_char(&body, 0, body.len(), '=');
                assert(body@.subrange(0, body.len() as int) =~= body@);
                let ghost lead = out@;
                push_str(&mut out, "export type ");
                push_str(&mut out, name);
                push_str(&mut out, " = ");
                push_union(&mut out, &body, first + 1, body.len());
                push_str(&mut out, ";");
                assert(out@ =~= lead + ("export type "@ + name@ + " = "@ + union_of(
                    variant_list(def@),
                ) + ";"@));
            }
        },
        TypeDefKind::Struct => {
            let ghost lead = out@;
            push_braced(&mut out, prefix, " class ", name, def);
            match &line.original_name {
                Some(original) => {
                    if *original != line.name {
                        push_str(&mut out, "\nexport type ");
                        push_str(&mut out, original.as_str());
                        push_str(&mut out, " = ");
                        push_str(&mut out, name);
                    }
                },
                None => {},
            }
            assert(out@ =~= lead + (braced(prefix@ + " class "@, name@, def@) + alias_line(
                line@,
            )));
        },
        TypeDefKind::Fn => {
            let ghost lead = out@;
            push_str(&mut out, prefix);
            push_str(&mut out, " ");
            push_str(&mut out, def);
            assert(out@ =~= lead + (prefix@ + " "@ + def@));
        },
        TypeDefKind::Const => {
            push_str(&mut out, def);
        },
        TypeDefKind::Impl => {
            push_str(&mut out, def);
        },
    }
    out
}

/// The declaration of `line` as it is emitted, as characters; see [`rendered`].
pub fn pretty_chars(line: &TypeDefLine, const_enum: bool, indent: usize, ambient: bool) -> (out:
    Vec<char>)
    requires
        renderable(line@, const_enum),
    ensures
        out@ == rendered(line@, const_enum, indent as nat, ambient),
{
    let raw = declaration_chars(line, const_enum, ambient);
    reindent(&raw, indent)
}

/// Renders one record as declaration text.
///
/// The documentation of the record comes first, as it stands. The declaration
/// follows in the shape of its kind: an interface, an enum (a `const enum` where
/// `const_enum` is set), a string enum (a `const enum` too, or else a union type of
/// its variants), a class with an alias for its original name where it was renamed,
/// a function, or the bare body for anything else. `ambient` picks the export
/// prefix. The whole is then re-indented from `indent`.
///
/// A string enum that is to become a union must hold an `=` in its body.
pub fn pretty_print(line: &TypeDefLine, const_enum: bool, indent: usize, ambient: bool) -> (out:
    String)
    requires
        renderable(line@, const_enum),
    ensures
        out@ == rendered(line@, const_enum, indent as nat, ambient),
{
    let chars = pretty_chars(line, const_enum, indent, ambient);
    string_of(&chars)
}

} // verus!
