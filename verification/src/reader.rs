//! Reads the record stream: frames each line, gives up on the first line that
//! does not decode, and puts the records in render order.

use vstd::prelude::*;
use crate::error::AssembleError;
use crate::record::{sort_records, sorted_records, text_opt, views, Record, TypeDefLine};
use crate::text::{
    chars_of, find_char, first_index_of, lemma_first_index_bounds, push_range, string_of,
    trim_range, trimmed,
};

verus! {

/// The record text on a line. The line is trimmed; where it does not begin with
/// `{`, everything up to and including its first `:` is a tag and is cut off. A
/// line without `{` at its start and without `:` stands as it is.
pub open spec fn framed(line: Seq<char>) -> Seq<char> {
    let t = trimmed(line);
    if t.len() > 0 && t[0] == '{' {
        t
    } else if first_index_of(t, ':') < t.len() {
        t.subrange(first_index_of(t, ':') + 1, t.len() as int)
    } else {
        t
    }
}

/// The record text on `line`, or `None` where the line holds none.
pub open spec fn framed_line(line: Seq<char>) -> Option<Seq<char>> {
    if framed(line).len() == 0 {
        None
    } else {
        Some(framed(line))
    }
}

/// The values of the decoded lines; `None` stands for a line that did not decode.
pub open spec fn decoded_views(d: Seq<Option<TypeDefLine>>) -> Seq<Option<Record>> {
    Seq::new(
        d.len(),
        |i: int|
            match d[i] {
                Some(line) => Some(line@),
                None => None,
            },
    )
}

/// The index of the first line that did not decode, or `d.len()` when all did.
pub open spec fn first_failure(d: Seq<Option<Record>>) -> int
    decreases d.len(),
{
    if d.len() == 0 || d[0] is None {
        0
    } else {
        1 + first_failure(d.drop_first())
    }
}

/// The records of the decoded lines, in order of arrival.
pub open spec fn decoded_records(d: Seq<Option<Record>>) -> Seq<Record> {
    Seq::new(d.len(), |i: int| d[i]->0)
}

/// What reading gives: the first line that did not decode is fatal; else the
/// records in render order.
pub open spec fn read_records(d: Seq<Option<Record>>) -> Result<Seq<Record>, AssembleError> {
    if first_failure(d) < d.len() {
        Err(AssembleError::MalformedStream { record: first_failure(d) as usize })
    } else {
        Ok(sorted_records(decoded_records(d)))
    }
}

/// `first_failure` is the least index that holds `None`, or the length.
pub proof fn lemma_first_failure(d: Seq<Option<Record>>, k: int)
    requires
        0 <= k <= d.len(),
        forall|j: int| 0 <= j < k ==> d[j] is Some,
        k < d.len() ==> d[k] is None,
    ensures
        first_failure(d) == k,
    decreases d.len(),
{
    if d.len() == 0 || d[0] is None {
    } else {
        let t = d.drop_first();
        assert forall|j: int| 0 <= j < k - 1 implies t[j] is Some by {
            assert(t[j] == d[j + 1]);
        }
        lemma_first_failure(t, k - 1);
    }
}

/// Frames one line of the record stream: returns the text to decode, or `None`
/// for a line that holds no record.
pub fn frame_line(line: &str) -> (payload: Option<String>)
    ensures
        text_opt(payload) == framed_line(line@),
{
    let chars = chars_of(line);
    assert(chars@.subrange(0, chars.len() as int) =~= chars@);
    let (a, b) = trim_range(&chars, 0, chars.len());
    let ghost t = chars@.subrange(a as int, b as int);
    let mut from: usize = a;
    if !(a < b && chars[a] == '{') {
        let colon: usize = find_char(&chars, a, b, ':');
        if colon < b {
            from = colon + 1;
        }
    }
    proof {
        lemma_first_index_bounds(t, ':');
        if a < b {
            assert(t[0] == chars@[a as int]);
        }
        assert(chars@.subrange(from as int, b as int) =~= framed(line@));
    }
    if from == b {
        None
    } else {
        let mut out: Vec<char> = Vec::new();
        push_range(&mut out, &chars, from, b);
        assert(out@ =~= framed(line@));
        Some(string_of(&out))
    }
}

/// Gathers the decoded lines into the record sequence.
///
/// `decoded` holds, for each line that [`frame_line`] found a record on, what
/// decoding it gave: the record, or `None` where the line did not decode. The first
/// `None` is fatal. Otherwise the records come back in render order.
pub fn read_intermediate_type_file(decoded: Vec<Option<TypeDefLine>>) -> (r: Result<
    Vec<TypeDefLine>,
    AssembleError,
>)
    ensures
        match r {
            Ok(defs) => read_records(decoded_views(decoded@)) == Ok::<
                Seq<Record>,
                AssembleError,
            >(views(defs@)),
            Err(e) => read_records(decoded_views(decoded@)) == Err::<Seq<Record>, AssembleError>(e),
        },
{
    let mut defs: Vec<TypeDefLine> = Vec::new();
    let mut i: usize = 0;
    while i < decoded.len()
        invariant
            i <= decoded.len(),
            defs.len() == i,
            forall|j: int|
                0 <= j < i ==> #[trigger] decoded_views(decoded@)[j] == Some(views(defs@)[j]),
        decreases decoded.len() - i,
    {
        match &decoded[i] {
            Some(line) => {
                let ghost before = views(defs@);
                let copy = line.copy_of();
                defs.push(copy);
                assert(views(defs@) =~= before.push(copy@));
            },
            None => {
                proof {
                    lemma_first_failure(decoded_views(decoded@), i as int);
                }
                return Err(AssembleError::MalformedStream { record: i });
            },
        }
        i = i + 1;
    }
    proof {
        lemma_first_failure(decoded_views(decoded@), i as int);
        assert(views(defs@) =~= decoded_records(decoded_views(decoded@)));
    }
    Ok(sort_records(defs))
}

} // verus!
