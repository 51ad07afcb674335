//! Drives the stages: reads the records, groups them, renders the groups, and
//! runs the substitution pass over the result.

use vstd::prelude::*;
use crate::error::AssembleError;
use crate::merge::{
    group_of, group_views, grouped, is_class, lemma_class_table_holds_classes, lemma_members_every,
    lemma_plain_members_every, class_table, members_of, namespaces_of, plain_members_of,
    preprocess_type_def, Group, NamespaceGroup,
};
use crate::reader::{
    decoded_records, decoded_views, lemma_first_failure, read_intermediate_type_file,
};
use crate::record::{
    every, lemma_sorted_every, sorted_records, views, Record, TypeDefKind, TypeDefLine,
};
use crate::render::{all_renderable, is_renderable, pretty_chars, renderable, rendered};
use crate::substitute::{substitute, substituted, SubstitutedText};
use crate::text::{push_range, push_str, string_of};

verus! {

/// The lines at the top of every declaration file.
pub const DEFAULT_TYPE_DEF_HEADER: &'static str =
    "/* auto-generated by OHOS-RS */\n/* eslint-disable */\n\n";

/// What assembling hands back.
#[derive(Debug, Clone)]
pub struct TypeDefOutput {
    /// The declaration text.
    pub dts: String,
    /// The names to re-export: the top-level symbols and the namespaces.
    pub exports: Vec<String>,
    /// The byte-buffer type name was replaced: the user is to be told.
    pub buffer_note: bool,
    /// The cancellation-signal type name occurs: the user is to be told.
    pub abort_note: bool,
}

/// The mathematical value of a [`TypeDefOutput`].
pub struct Assembled {
    pub dts: Seq<char>,
    pub exports: Seq<Seq<char>>,
    pub buffer_note: bool,
    pub abort_note: bool,
}

/// The texts of a sequence of strings, in order.
pub open spec fn texts(s: Seq<String>) -> Seq<Seq<char>> {
    Seq::new(s.len(), |i: int| s[i]@)
}

impl View for TypeDefOutput {
    type V = Assembled;

    open spec fn view(&self) -> Assembled {
        Assembled {
            dts: self.dts@,
            exports: texts(self.exports@),
            buffer_note: self.buffer_note,
            abort_note: self.abort_note,
        }
    }
}

/// The value of an outcome of assembling.
pub open spec fn outcome(r: Result<TypeDefOutput, AssembleError>) -> Result<
    Assembled,
    AssembleError,
> {
    match r {
        Ok(out) => Ok(out@),
        Err(e) => Err(e),
    }
}

/// The records of `defs` rendered one after the other, each followed by a line
/// feed.
pub open spec fn rendered_all(defs: Seq<Record>, const_enum: bool, indent: nat, ambient: bool) -> Seq<
    char,
>
    decreases defs.len(),
{
    if defs.len() == 0 {
        Seq::empty()
    } else {
        rendered_all(defs.drop_last(), const_enum, indent, ambient) + rendered(
            defs.last(),
            const_enum,
            indent,
            ambient,
        ) + seq!['\n']
    }
}

/// The kinds whose top-level symbols are re-exported.
pub open spec fn is_exported(kind: TypeDefKind) -> bool {
    kind == TypeDefKind::Const || kind == TypeDefKind::Enum || kind == TypeDefKind::Fn || kind
        == TypeDefKind::Struct || kind == TypeDefKind::StringEnum
}

/// The names that a top-level record adds to the export list: its name, then its
/// original name where that is another.
pub open spec fn record_exports(r: Record) -> Seq<Seq<char>> {
    if !is_exported(r.kind) {
        Seq::empty()
    } else {
        match r.original_name {
            Some(original) => if original != r.name {
                seq![r.name, original]
            } else {
                seq![r.name]
            },
            None => seq![r.name],
        }
    }
}

/// The names that top-level records add to the export list, in order.
pub open spec fn exports_of(defs: Seq<Record>) -> Seq<Seq<char>>
    decreases defs.len(),
{
    if defs.len() == 0 {
        Seq::empty()
    } else {
        exports_of(defs.drop_last()) + record_exports(defs.last())
    }
}

/// The text of one group: the top-level records stand flat, with the declaring
/// prefix; the records of a namespace stand inside its block, indented by two, with
/// the short prefix.
pub open spec fn group_text(g: Group, const_enum: bool) -> Seq<char> {
    match g.namespace {
        None => rendered_all(g.defs, const_enum, 0, false),
        Some(name) => "export namespace "@ + name + " {\n"@ + rendered_all(
            g.defs,
            const_enum,
            2,
            true,
        ) + "}\n"@,
    }
}

/// What one group adds to the export list: the top level its symbols, a namespace
/// its own name.
pub open spec fn group_exports(g: Group) -> Seq<Seq<char>> {
    match g.namespace {
        None => exports_of(g.defs),
        Some(name) => seq![name],
    }
}

/// The text of the groups, one after the other.
pub open spec fn body_of(groups: Seq<Group>, const_enum: bool) -> Seq<char>
    decreases groups.len(),
{
    if groups.len() == 0 {
        Seq::empty()
    } else {
        body_of(groups.drop_last(), const_enum) + group_text(groups.last(), const_enum)
    }
}

/// The export list of the groups, one after the other.
pub open spec fn exports_of_groups(groups: Seq<Group>) -> Seq<Seq<char>>
    decreases groups.len(),
{
    if groups.len() == 0 {
        Seq::empty()
    } else {
        exports_of_groups(groups.drop_last()) + group_exports(groups.last())
    }
}

/// What the records in render order `sorted` assemble to under the header prefix
/// `header`; `None` where the pattern matcher refuses a pattern.
pub open spec fn assembled_sorted(sorted: Seq<Record>, const_enum: bool, header: Seq<char>) -> Option<
    Assembled,
> {
    let groups = grouped(sorted);
    match substituted(header, body_of(groups, const_enum)) {
        Some(done) => Some(
            Assembled {
                dts: done.text,
                exports: exports_of_groups(groups),
                buffer_note: done.buffer_note,
                abort_note: done.abort_note,
            },
        ),
        None => None,
    }
}

/// What the records `stream`, in order of arrival, assemble to.
pub open spec fn assembled(stream: Seq<Record>, const_enum: bool, header: Seq<char>) -> Option<
    Assembled,
> {
    assembled_sorted(sorted_records(stream), const_enum, header)
}

/// A decoded line that can be assembled: it decoded, and its record can be rendered
/// in the mode `const_enum`.
pub open spec fn usable(line: Option<Record>, const_enum: bool) -> bool {
    match line {
        Some(rec) => renderable(rec, const_enum),
        None => false,
    }
}

/// The index of the first line that cannot be assembled, or `d.len()` when all can.
pub open spec fn first_unusable(d: Seq<Option<Record>>, const_enum: bool) -> int
    decreases d.len(),
{
    if d.len() == 0 || !usable(d[0], const_enum) {
        0
    } else {
        1 + first_unusable(d.drop_first(), const_enum)
    }
}

/// The outcome of assembling the decoded lines `decoded`: the first line that did
/// not decode, or whose record cannot be rendered, is fatal; so is a pattern that
/// the matcher refuses; else the records assemble to text and export list.
pub open spec fn processed(decoded: Seq<Option<Record>>, const_enum: bool, header: Seq<char>) -> Result<
    Assembled,
    AssembleError,
> {
    if first_unusable(decoded, const_enum) < decoded.len() {
        Err(AssembleError::MalformedStream { record: first_unusable(decoded, const_enum) as usize })
    } else {
        match assembled(decoded_records(decoded), const_enum, header) {
            Some(out) => Ok(out),
            None => Err(AssembleError::PatternRejected),
        }
    }
}

/// `first_unusable` is the least index of a line that cannot be assembled, or the
/// length.
pub proof fn lemma_first_unusable(d: Seq<Option<Record>>, const_enum: bool, k: int)
    requires
        0 <= k <= d.len(),
        forall|j: int| 0 <= j < k ==> usable(#[trigger] d[j], const_enum),
        k < d.len() ==> !usable(d[k], const_enum),
    ensures
        first_unusable(d, const_enum) == k,
    decreases d.len(),
{
    if d.len() == 0 || !usable(d[0], const_enum) {
    } else {
        let t = d.drop_first();
        assert forall|j: int| 0 <= j < k - 1 implies usable(#[trigger] t[j], const_enum) by {
            assert(t[j] == d[j + 1]);
        }
        lemma_first_unusable(t, const_enum, k - 1);
    }
}

/// What lands in the declaration file: the default header, the caller's extra
/// header, and the records assembled with `const enum`s and no header prefix.
pub open spec fn generated(decoded: Seq<Option<Record>>, extra_header: Seq<char>) -> Result<
    Assembled,
    AssembleError,
> {
    match processed(decoded, true, Seq::empty()) {
        Ok(out) => Ok(Assembled { dts: DEFAULT_TYPE_DEF_HEADER@ + extra_header + out.dts, ..out }),
        Err(e) => Err(e),
    }
}

/// Every record of every group can be rendered, if every record of the stream can.
pub proof fn lemma_groups_renderable(sorted: Seq<Record>, const_enum: bool, ns: Option<Seq<char>>)
    requires
        all_renderable(sorted, const_enum),
    ensures
        all_renderable(
            members_of(class_table(sorted), ns) + plain_members_of(sorted, ns),
            const_enum,
        ),
{
    let classes = members_of(class_table(sorted), ns);
    let plain = plain_members_of(sorted, ns);
    let p = |r: Record| renderable(r, const_enum);
    lemma_class_table_holds_classes(sorted);
    lemma_members_every(class_table(sorted), ns, |r: Record| is_class(r));
    assert(every(sorted, p));
    lemma_plain_members_every(sorted, ns, p);
    assert forall|i: int| 0 <= i < (classes + plain).len() implies renderable(
        #[trigger] (classes + plain)[i],
        const_enum,
    ) by {
        if i < classes.len() {
            assert(is_class(classes[i]));
        } else {
            assert(p(plain[i - classes.len()]));
        }
    }
}

/// Appends the rendered records of `defs` to `body`.
fn push_rendered_all(
    body: &mut Vec<char>,
    defs: &Vec<TypeDefLine>,
    const_enum: bool,
    indent: usize,
    ambient: bool,
)
    requires
        all_renderable(views(defs@), const_enum),
    ensures
        final(body)@ == old(body)@ + rendered_all(views(defs@), const_enum, indent as nat, ambient),
{
    let mut i: usize = 0;
    assert(body@ =~= old(body)@ + Seq::<char>::empty());
    while i < defs.len()
        invariant
            i <= defs.len(),
            all_renderable(views(defs@), const_enum),
            body@ == old(body)@ + rendered_all(
                views(defs@).subrange(0, i as int),
                const_enum,
                indent as nat,
                ambient,
            ),
        decreases defs.len() - i,
    {
        let ghost before = body@;
        let ghost done = views(defs@).subrange(0, i as int);
        assert(renderable(views(defs@)[i as int], const_enum));
        let text = pretty_chars(&defs[i], const_enum, indent, ambient);
        push_range(body, &text, 0, text.len());
        body.push('\n');
        proof {
            let s = views(defs@).subrange(0, i + 1);
            assert(s.drop_last() =~= done);
            assert(s.last() == defs@[i as int]@);
            assert(text@.subrange(0, text.len() as int) =~= text@);
            assert(body@ =~= old(body)@ + (rendered_all(done, const_enum, indent as nat, ambient)
                + text@ + seq!['\n']));
        }
        i = i + 1;
    }
    assert(views(defs@).subrange(0, i as int) =~= views(defs@));
}

/// The names that `line` adds to the export list as a top-level record.
fn exports_of_line(line: &TypeDefLine) -> (names: Vec<String>)
    ensures
        texts(names@) == record_exports(line@),
{
    let mut names: Vec<String> = Vec::new();
    let exported = line.kind == TypeDefKind::Const || line.kind == TypeDefKind::Enum || line.kind
        == TypeDefKind::Fn || line.kind == TypeDefKind::Struct || line.kind
        == TypeDefKind::StringEnum;
    if exported {
        names.push(line.name.clone());
        match &line.original_name {
            Some(original) => {
                if *original != line.name {
                    names.push(original.clone());
                }
            },
            None => {},
        }
    }
    assert(texts(names@) =~= record_exports(line@));
    names
}

/// Appends to `exports` the names that the top-level records `defs` add.
fn push_exports(exports: &mut Vec<String>, defs: &Vec<TypeDefLine>)
    ensures
        texts(final(exports)@) == texts(old(exports)@) + exports_of(views(defs@)),
{
    let mut i: usize = 0;
    assert(texts(exports@) =~= texts(old(exports)@) + Seq::<Seq<char>>::empty());
    while i < defs.len()
        invariant
            i <= defs.len(),
            texts(exports@) == texts(old(exports)@) + exports_of(
                views(defs@).subrange(0, i as int),
            ),
        decreases defs.len() - i,
    {
        let ghost before = texts(exports@);
        let ghost done = views(defs@).subrange(0, i as int);
        let mut names = exports_of_line(&defs[i]);
        let ghost added = texts(names@);
        let ghost kept = exports@;
        let ghost new = names@;
        exports.append(&mut names);
        proof {
            let s = views(defs@).subrange(0, i + 1);
            assert(s.drop_last() =~= done);
            assert(s.last() == defs@[i as int]@);
            assert(exports@ == kept + new);
            assert(texts(exports@) =~= before + added);
            assert(texts(exports@) =~= texts(old(exports)@) + (exports_of(done) + added));
        }
        i = i + 1;
    }
    assert(views(defs@).subrange(0, i as int) =~= views(defs@));
}

/// Appends the text of `group` to `body` and its names to `exports`.
fn push_group(
    body: &mut Vec<char>,
    exports: &mut Vec<String>,
    group: &NamespaceGroup,
    const_enum: bool,
)
    requires
        all_renderable(group@.defs, const_enum),
    ensures
        final(body)@ == old(body)@ + group_text(group@, const_enum),
        texts(final(exports)@) == texts(old(exports)@) + group_exports(group@),
{
    match &group.namespace {
        None => {
            push_rendered_all(body, &group.defs, const_enum, 0, false);
            push_exports(exports, &group.defs);
        },
        Some(name) => {
            let ghost kept = texts(exports@);
            exports.push(name.clone());
            assert(texts(exports@) =~= kept + seq![name@]);
            push_str(body, "export namespace ");
            push_str(body, name.as_str());
            push_str(body, " {\n");
            push_rendered_all(body, &group.defs, const_enum, 2, true);
            push_str(body, "}\n");
            assert(body@ =~= old(body)@ + group_text(group@, const_enum));
        },
    }
}

/// Assembles the declaration text and the export list from the decoded lines.
///
/// `decoded` holds, for each line of the record stream that holds a record, what
/// decoding it gave; `None` stands for a line that did not decode. The first line
/// that did not decode, or whose record cannot be rendered in the mode
/// `const_enum`, is fatal: nothing is assembled. Otherwise the records are put in
/// render order and grouped by namespace, each class with its member blocks folded
/// in. The top-level group is rendered flat and exports its symbols; every other
/// group is rendered inside a `namespace` block and exports the name of the
/// namespace. The substitution pass then runs over the body, with `header` as the
/// header prefix.
pub fn process_type_def(decoded: Vec<Option<TypeDefLine>>, const_enum: bool, header: &str) -> (r:
    Result<TypeDefOutput, AssembleError>)
    ensures
        outcome(r) == processed(decoded_views(decoded@), const_enum, header@),
{
    let ghost lines = decoded_views(decoded@);
    let mut k: usize = 0;
    while k < decoded.len()
        invariant
            k <= decoded.len(),
            lines == decoded_views(decoded@),
            forall|j: int| 0 <= j < k ==> usable(#[trigger] lines[j], const_enum),
        decreases decoded.len() - k,
    {
        let fine = match &decoded[k] {
            Some(line) => is_renderable(line, const_enum),
            None => false,
        };
        if !fine {
            proof {
                lemma_first_unusable(lines, const_enum, k as int);
            }
            return Err(AssembleError::MalformedStream { record: k });
        }
        k = k + 1;
    }
    proof {
        lemma_first_unusable(lines, const_enum, k as int);
        lemma_first_failure(lines, k as int);
    }
    let defs = match read_intermediate_type_file(decoded) {
        Ok(defs) => defs,
        Err(e) => {
            return Err(e);
        },
    };
    let ghost sorted = views(defs@);
    proof {
        assert(sorted == sorted_records(decoded_records(lines)));
        assert forall|i: int| 0 <= i < decoded_records(lines).len() implies renderable(
            #[trigger] decoded_records(lines)[i],
            const_enum,
        ) by {
            assert(usable(lines[i], const_enum));
        }
        let p = |r: Record| renderable(r, const_enum);
        assert(every(decoded_records(lines), p));
        lemma_sorted_every(decoded_records(lines), p);
        assert forall|i: int| 0 <= i < sorted.len() implies renderable(
            #[trigger] sorted[i],
            const_enum,
        ) by {
            assert(p(sorted[i]));
        }
    }
    let groups = preprocess_type_def(defs);
    let mut body: Vec<char> = Vec::new();
    let mut exports: Vec<String> = Vec::new();
    let mut i: usize = 0;
    assert(texts(exports@) =~= Seq::<Seq<char>>::empty());
    while i < groups.len()
        invariant
            i <= groups.len(),
            group_views(groups@) == grouped(sorted),
            all_renderable(sorted, const_enum),
            body@ == body_of(group_views(groups@).subrange(0, i as int), const_enum),
            texts(exports@) == exports_of_groups(group_views(groups@).subrange(0, i as int)),
        decreases groups.len() - i,
    {
        proof {
            let done = group_views(groups@).subrange(0, i + 1);
            assert(done.drop_last() =~= group_views(groups@).subrange(0, i as int));
            assert(done.last() == groups@[i as int]@);
            let ns = namespaces_of(sorted)[i as int];
            assert(group_views(groups@)[i as int] == groups@[i as int]@);
            assert(grouped(sorted).len() == namespaces_of(sorted).len());
            assert(grouped(sorted)[i as int] == group_of(sorted, ns));
            lemma_groups_renderable(sorted, const_enum, ns);
            assert(groups@[i as int]@.defs == members_of(class_table(sorted), ns)
                + plain_members_of(sorted, ns));
        }
        push_group(&mut body, &mut exports, &groups[i], const_enum);
        i = i + 1;
    }
    assert(group_views(groups@).subrange(0, i as int) =~= group_views(groups@));
    let text = string_of(&body);
    match substitute(header, text.as_str()) {
        Ok(done) => Ok(
            TypeDefOutput {
                dts: done.text,
                exports,
                buffer_note: done.buffer_note,
                abort_note: done.abort_note,
            },
        ),
        Err(e) => Err(e),
    }
}

/// Produces the contents of the declaration file from the decoded lines.
///
/// The records are assembled with `const enum`s and no header prefix; the default
/// header and then `extra_header` are put in front of the result. The export list
/// and the notes are those of the assembly.
pub fn generate_d_ts_file(decoded: Vec<Option<TypeDefLine>>, extra_header: &str) -> (r: Result<
    TypeDefOutput,
    AssembleError,
>)
    ensures
        outcome(r) == generated(decoded_views(decoded@), extra_header@),
{
    let ghost nothing = ""@;
    proof {
        reveal_strlit("");
        assert(nothing =~= Seq::<char>::empty());
    }
    match process_type_def(decoded, true, "") {
        Ok(out) => {
            let mut text: Vec<char> = Vec::new();
            push_str(&mut text, DEFAULT_TYPE_DEF_HEADER);
            push_str(&mut text, extra_header);
            push_str(&mut text, out.dts.as_str());
            assert(text@ =~= DEFAULT_TYPE_DEF_HEADER@ + extra_header@ + out.dts@);
            Ok(
                TypeDefOutput {
                    dts: string_of(&text),
                    exports: out.exports,
                    buffer_note: out.buffer_note,
                    abort_note: out.abort_note,
                },
            )
        },
        Err(e) => Err(e),
    }
}

} // verus!
