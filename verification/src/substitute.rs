//! The substitution and header pass over the assembled body.
//!
//! The pass rewrites the one type name that the target runtime lacks, and puts
//! in front of the body the declarations that the body relies on.

use vstd::prelude::*;
use regex::Regex;
use crate::error::AssembleError;
use crate::record::text_opt;
use crate::text::{chars_of, contains_text, has_text, push_str, string_of};

verus! {

/// The pattern for the byte-buffer type name, as a whole word.
pub const BUFFER_PATTERN: &'static str = "\\bBuffer\\b";

/// What takes the place of the byte-buffer type name.
pub const BUFFER_REPLACEMENT: &'static str = "ArrayBuffer";

/// The pattern for the cancellation-signal type name, as a whole word.
pub const ABORT_PATTERN: &'static str = "\\bAbortSignal\\b";

/// The marker of an external handle in the body.
pub const EXTERNAL_OBJECT_MARKER: &'static str = "ExternalObject<";

/// What separates the header from the body once a note was raised.
pub const HEADER_GAP: &'static str = "\n\n";

/// The declarations that stand in for the cancellation-signal type.
pub const ABORT_TS: &'static str =
    "\nexport interface AbortSignal {\n  readonly aborted: boolean\n  readonly reason: unknown\n  onabort: (() => void) | null\n  throwIfAborted(): void\n}\n\nexport declare class AbortController {\n  readonly signal: AbortSignal\n  abort(reason?: unknown): void\n}\n";

/// The declaration of the external-handle class.
pub const EXTERNAL_OBJECT_CLASS: &'static str =
    "\nexport class ExternalObject<T> {\n  readonly '': {\n    readonly '': unique symbol\n    [K: symbol]: T\n  }\n}\n";

/// What `Regex::new(pattern)` followed by `is_match(haystack)` gives: `None` where the
/// pattern is refused, else whether the pattern matches somewhere in the haystack.
pub uninterp spec fn regex_is_match(pattern: Seq<char>, haystack: Seq<char>) -> Option<bool>;

/// What `Regex::new(pattern)` followed by `replace_all(haystack, rep)` gives: `None`
/// where the pattern is refused, else the haystack with every match replaced.
pub uninterp spec fn regex_replace_all(
    pattern: Seq<char>,
    haystack: Seq<char>,
    rep: Seq<char>,
) -> Option<Seq<char>>;

/// Compiles `pattern` with `regex::Regex::new` and asks `Regex::is_match` whether it
/// matches anywhere in `haystack`. The contract only names the outcome: it depends
/// on the two texts alone. `None` stands for a pattern that did not compile.
#[verifier::external_body]
fn pattern_matches(pattern: &str, haystack: &str) -> (r: Option<bool>)
    ensures
        r == regex_is_match(pattern@, haystack@),
{
    match Regex::new(pattern) {
        Ok(re) => Some(re.is_match(haystack)),
        Err(_) => None,
    }
}

/// Compiles `pattern` with `regex::Regex::new` and replaces every match in
/// `haystack` with `Regex::replace_all`. The contract names the outcome, which depends
/// on the three texts alone, and adds what the crate documents: the pattern
/// compiles here exactly when it compiles for matching, and a haystack without a
/// match comes back unchanged. `None` stands for a pattern that did not compile.
#[verifier::external_body]
fn replace_matches(pattern: &str, haystack: &str, rep: &str) -> (r: Option<String>)
    ensures
        text_opt(r) == regex_replace_all(pattern@, haystack@, rep@),
        r is Some <==> regex_is_match(pattern@, haystack@) is Some,
        regex_is_match(pattern@, haystack@) == Some(false) ==> text_opt(r) == Some(haystack@),
{
    match Regex::new(pattern) {
        Ok(re) => Some(re.replace_all(haystack, rep).into_owned()),
        Err(_) => None,
    }
}

/// What the pass hands back.
#[derive(Debug, Clone)]
pub struct Substituted {
    /// The header followed by the body.
    pub text: String,
    /// The byte-buffer type name was replaced: the user is to be told.
    pub buffer_note: bool,
    /// The cancellation-signal type name occurs: the user is to be told.
    pub abort_note: bool,
}

/// The mathematical value of a [`Substituted`].
pub struct SubstitutedText {
    pub text: Seq<char>,
    pub buffer_note: bool,
    pub abort_note: bool,
}

impl View for Substituted {
    type V = SubstitutedText;

    open spec fn view(&self) -> SubstitutedText {
        SubstitutedText {
            text: self.text@,
            buffer_note: self.buffer_note,
            abort_note: self.abort_note,
        }
    }
}

/// The header in front of `body`: the caller's prefix; the stand-in declarations
/// where the cancellation-signal name occurs; two line feeds where either note was
/// raised; the external-handle class where the body holds its marker.
pub open spec fn header_for(prefix: Seq<char>, body: Seq<char>, buffer_hit: bool, abort_hit: bool) -> Seq<
    char,
> {
    prefix + (if abort_hit {
        ABORT_TS@
    } else {
        Seq::empty()
    }) + (if buffer_hit || abort_hit {
        HEADER_GAP@
    } else {
        Seq::empty()
    }) + (if contains_text(body, EXTERNAL_OBJECT_MARKER@) {
        EXTERNAL_OBJECT_CLASS@
    } else {
        Seq::empty()
    })
}

/// The outcome of the pass once the pattern matcher has spoken: `body` is the body
/// after replacement.
pub open spec fn finished(prefix: Seq<char>, body: Seq<char>, buffer_hit: bool, abort_hit: bool) -> SubstitutedText {
    SubstitutedText {
        text: header_for(prefix, body, buffer_hit, abort_hit) + body,
        buffer_note: buffer_hit,
        abort_note: abort_hit,
    }
}

/// The body after the first step: the byte-buffer name replaced where the pattern
/// matcher finds it, and whether it did. `None` where the matcher refuses the
/// pattern.
pub open spec fn buffer_step(body: Seq<char>) -> Option<(Seq<char>, bool)> {
    match regex_is_match(BUFFER_PATTERN@, body) {
        None => None,
        Some(false) => Some((body, false)),
        Some(true) => match regex_replace_all(BUFFER_PATTERN@, body, BUFFER_REPLACEMENT@) {
            None => None,
            Some(replaced) => Some((replaced, true)),
        },
    }
}

/// The outcome of the whole pass on `body` under the header prefix `prefix`; `None`
/// where the pattern matcher refuses a pattern.
pub open spec fn substituted(prefix: Seq<char>, body: Seq<char>) -> Option<SubstitutedText> {
    match buffer_step(body) {
        None => None,
        Some((replaced, buffer_hit)) => match regex_is_match(ABORT_PATTERN@, replaced) {
            None => None,
            Some(abort_hit) => Some(finished(prefix, replaced, buffer_hit, abort_hit)),
        },
    }
}

/// Puts the header in front of the body, given what the pattern matcher found:
/// `body` is the body after replacement, `buffer_hit` tells whether anything was
/// replaced, `abort_hit` whether the cancellation-signal name occurs.
pub fn finish(prefix: &str, body: &str, buffer_hit: bool, abort_hit: bool) -> (out: Substituted)
    ensures
        out@ == finished(prefix@, body@, buffer_hit, abort_hit),
{
    let mut text: Vec<char> = Vec::new();
    push_str(&mut text, prefix);
    if abort_hit {
        push_str(&mut text, ABORT_TS);
    }
    if buffer_hit || abort_hit {
        push_str(&mut text, HEADER_GAP);
    }
    let chars = chars_of(body);
    let marker = chars_of(EXTERNAL_OBJECT_MARKER);
    if has_text(&chars, &marker) {
        push_str(&mut text, EXTERNAL_OBJECT_CLASS);
    }
    assert(text@ =~= header_for(prefix@, body@, buffer_hit, abort_hit));
    push_str(&mut text, body);
    Substituted { text: string_of(&text), buffer_note: buffer_hit, abort_note: abort_hit }
}

/// Runs the substitution and header pass.
///
/// First every whole-word `Buffer` in the body becomes `ArrayBuffer`, and a note is
/// raised if there was one. Then the body is searched for the whole word
/// `AbortSignal`: where it occurs, the stand-in declarations join the header and a
/// second note is raised. A header that a note was raised for gets two line feeds.
/// Where the body holds `ExternalObject<`, the external-handle class joins the header.
/// The result is the header followed by the body.
///
/// Whole words are found by the pattern matcher; the pass fails only where the
/// matcher refuses one of the two patterns.
pub fn substitute(prefix: &str, body: &str) -> (r: Result<Substituted, AssembleError>)
    ensures
        match r {
            Ok(out) => substituted(prefix@, body@) == Some(out@),
            Err(e) => e == AssembleError::PatternRejected && substituted(prefix@, body@) is None,
        },
{
    let buffer_hit = match pattern_matches(BUFFER_PATTERN, body) {
        Some(hit) => hit,
        None => {
            return Err(AssembleError::PatternRejected);
        },
    };
    let replaced: String = if buffer_hit {
        match replace_matches(BUFFER_PATTERN, body, BUFFER_REPLACEMENT) {
            Some(text) => text,
            None => {
                return Err(AssembleError::PatternRejected);
            },
        }
    } else {
        body.to_owned()
    };
    assert(buffer_step(body@) == Some((replaced@, buffer_hit)));
    match pattern_matches(ABORT_PATTERN, replaced.as_str()) {
        Some(abort_hit) => Ok(finish(prefix, replaced.as_str(), buffer_hit, abort_hit)),
        None => Err(AssembleError::PatternRejected),
    }
}

} // verus!
