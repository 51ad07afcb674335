//! Re-indents declaration text by the depth of its braces.
//!
//! The pass reads lines, not a grammar: a line that ends in `{` opens a block and a
//! line that ends in `}` closes one, whatever else the line holds.

use vstd::prelude::*;
use crate::text::{
    chars_of, find_char, first_index_of, lemma_first_index_bounds, lines_of, push_range,
    push_spaces, spaces, string_of, trim_range, trimmed,
};

verus! {

/// A line inside a documentation comment: it begins with `*`.
pub open spec fn is_comment_line(line: Seq<char>) -> bool {
    line.len() > 0 && line[0] == '*'
}

/// A line that opens a block: it ends in `{` and is no comment line.
pub open spec fn opens_block(line: Seq<char>) -> bool {
    line.len() > 0 && line.last() == '{' && !is_comment_line(line)
}

/// A line that closes a block: it ends in `}` and is no comment line.
pub open spec fn closes_block(line: Seq<char>) -> bool {
    line.len() > 0 && line.last() == '}' && !is_comment_line(line)
}

/// The brace depth behind `line`, where it was `depth` in front of it. The depth
/// never falls below zero.
pub open spec fn depth_after(line: Seq<char>, depth: nat) -> nat {
    if opens_block(line) {
        depth + 1
    } else if closes_block(line) && depth > 0 {
        (depth - 1) as nat
    } else {
        depth
    }
}

/// The number of spaces in front of `line`: two for each level, on top of `base`. A
/// line that opens a block stands at the depth in front of it, any other line at the
/// depth behind it. A comment line stands one space further in.
pub open spec fn indent_width(line: Seq<char>, depth: nat, base: nat) -> nat {
    let level = if opens_block(line) {
        depth
    } else {
        depth_after(line, depth)
    };
    let extra: nat = if is_comment_line(line) {
        1
    } else {
        0
    };
    base + 2 * level + extra
}

/// One trimmed line as it is emitted: a blank line becomes an empty line, any other
/// line gets its indent and a line feed.
pub open spec fn indented_line(line: Seq<char>, depth: nat, base: nat) -> Seq<char> {
    if line.len() == 0 {
        seq!['\n']
    } else {
        spaces(indent_width(line, depth, base)) + line + seq!['\n']
    }
}

/// The lines `lines`, each trimmed and indented, starting at brace depth `depth`.
pub open spec fn indented_lines(lines: Seq<Seq<char>>, depth: nat, base: nat) -> Seq<char>
    decreases lines.len(),
{
    if lines.len() == 0 {
        Seq::empty()
    } else {
        let line = trimmed(lines[0]);
        indented_line(line, depth, base) + indented_lines(
            lines.drop_first(),
            depth_after(line, depth),
            base,
        )
    }
}

/// `src` with every line re-indented by brace depth, starting at depth zero.
pub open spec fn reindented(src: Seq<char>, base: nat) -> Seq<char> {
    indented_lines(lines_of(src), 0, base)
}

/// Runs of spaces add up.
pub proof fn lemma_spaces_add(a: nat, b: nat)
    ensures
        spaces(a) + spaces(b) == spaces(a + b),
{
    assert(spaces(a) + spaces(b) =~= spaces(a + b));
}

/// The first line of a text that is not empty, and the text that holds the others.
pub proof fn lemma_lines_unfold(s: Seq<char>)
    requires
        s.len() > 0,
    ensures
        0 <= first_index_of(s, '\n') <= s.len(),
        lines_of(s).len() > 0,
        lines_of(s)[0] == s.subrange(0, first_index_of(s, '\n')),
        first_index_of(s, '\n') < s.len() ==> lines_of(s).drop_first() == lines_of(
            s.subrange(first_index_of(s, '\n') + 1, s.len() as int),
        ),
        first_index_of(s, '\n') == s.len() ==> lines_of(s).drop_first() == Seq::<
            Seq<char>,
        >::empty(),
{
    lemma_first_index_bounds(s, '\n');
    let k = first_index_of(s, '\n');
    if k < s.len() {
        let tail = lines_of(s.subrange(k + 1, s.len() as int));
        assert((seq![s.subrange(0, k)] + tail).drop_first() =~= tail);
    } else {
        assert(s.subrange(0, k) =~= s);
        assert(seq![s].drop_first() =~= Seq::<Seq<char>>::empty());
    }
}

/// Appends the trimmed line `src[a..b]` to `out` as it is emitted at brace depth
/// `depth`, and returns the depth behind it.
fn push_indented_line(
    out: &mut Vec<char>,
    src: &Vec<char>,
    a: usize,
    b: usize,
    depth: usize,
    indent: usize,
) -> (after: usize)
    requires
        a <= b <= src.len(),
        depth < usize::MAX,
    ensures
        final(out)@ == old(out)@ + indented_line(
            src@.subrange(a as int, b as int),
            depth as nat,
            indent as nat,
        ),
        after == depth_after(src@.subrange(a as int, b as int), depth as nat),
{
    let ghost line = src@.subrange(a as int, b as int);
    if a == b {
        out.push('\n');
        assert(out@ =~= old(out)@ + seq!['\n']);
        return depth;
    }
    let comment = src[a] == '*';
    let opening = src[b - 1] == '{' && !comment;
    let closing = src[b - 1] == '}' && !comment;
    assert(line[0] == src@[a as int]);
    assert(line.last() == src@[b - 1]);
    let level: usize = if !opening && closing && depth > 0 {
        depth - 1
    } else {
        depth
    };
    let after: usize = if opening {
        depth + 1
    } else {
        level
    };
    push_spaces(out, indent);
    push_spaces(out, level);
    push_spaces(out, level);
    if comment {
        out.push(' ');
    }
    let ghost lead = out@;
    push_range(out, src, a, b);
    out.push('\n');
    proof {
        let extra: nat = if comment {
            1
        } else {
            0
        };
        lemma_spaces_add(indent as nat, level as nat);
        lemma_spaces_add((indent + level) as nat, level as nat);
        lemma_spaces_add((indent + level + level) as nat, extra);
        assert(spaces(1) =~= seq![' ']);
        assert(spaces(0) =~= Seq::<char>::empty());
        assert(indent_width(line, depth as nat, indent as nat) == indent + level + level + extra);
        assert(lead =~= old(out)@ + spaces((indent + level + level + extra) as nat));
        assert(out@ =~= old(out)@ + (spaces((indent + level + level + extra) as nat) + line
            + seq!['\n']));
    }
    after
}

/// Re-indents `src` by brace depth; see [`reindented`].
pub fn reindent(src: &Vec<char>, indent: usize) -> (out: Vec<char>)
    ensures
        out@ == reindented(src@, indent as nat),
{
    let mut out: Vec<char> = Vec::new();
    let mut depth: usize = 0;
    let mut pos: usize = 0;
    let len: usize = src.len();
    assert(src@.subrange(0, len as int) =~= src@);
    assert(out@ + reindented(src@, indent as nat) =~= reindented(src@, indent as nat));
    while pos < len
        invariant
            len == src.len(),
            pos <= len,
            depth <= pos,
            out@ + indented_lines(
                lines_of(src@.subrange(pos as int, len as int)),
                depth as nat,
                indent as nat,
            ) == reindented(src@, indent as nat),
        decreases len - pos,
    {
        let ghost rest = src@.subrange(pos as int, len as int);
        let ghost before = out@;
        let ghost depth_before = depth as nat;
        let end: usize = find_char(src, pos, len, '\n');
        let next: usize = if end < len {
            end + 1
        } else {
            len
        };
        let (a, b) = trim_range(src, pos, end);
        let ghost line = src@.subrange(a as int, b as int);
        proof {
            lemma_lines_unfold(rest);
            assert(rest.subrange(0, end - pos) =~= src@.subrange(pos as int, end as int));
            if end < len {
                assert(rest.subrange(end - pos + 1, rest.len() as int) =~= src@.subrange(
                    next as int,
                    len as int,
                ));
            } else {
                assert(src@.subrange(next as int, len as int) =~= Seq::<char>::empty());
            }
            assert(lines_of(rest).drop_first() == lines_of(src@.subrange(next as int, len as int)));
            assert(trimmed(lines_of(rest)[0]) == line);
        }
        depth = push_indented_line(&mut out, src, a, b, depth, indent);
        proof {
            let tail = indented_lines(
                lines_of(src@.subrange(next as int, len as int)),
                depth as nat,
                indent as nat,
            );
            assert(out@ + tail =~= before + (indented_line(line, depth_before, indent as nat)
                + tail));
        }
        pos = next;
    }
    assert(src@.subrange(pos as int, len as int) =~= Seq::<char>::empty());
    assert(out@ + Seq::<char>::empty() =~= out@);
    out
}

/// Re-indents `src` by the depth of its braces.
///
/// Every line is trimmed. A blank line comes out empty. Any other line comes out
/// behind `indent` spaces and two more for each open block: a line that ends in `{`
/// stands at the depth in front of it and opens a block, a line that ends in `}`
/// closes one first, never below depth zero. A line that begins with `*` belongs to
/// a comment: it neither opens nor closes a block and stands one space further in.
/// Every line of the result ends in a line feed.
pub fn correct_string_indent(src: &str, indent: usize) -> (out: String)
    ensures
        out@ == reindented(src@, indent as nat),
{
    let chars = chars_of(src);
    let out = reindent(&chars, indent);
    string_of(&out)
}

} // verus!
