//! The names that the registration code of an exported constant goes by.

use vstd::prelude::*;
use crate::text::{push_str, string_of};

verus! {

/// The name of a constant as the runtime reads it: the name, closed by a NUL.
pub open spec fn js_name_text(name: Seq<char>) -> Seq<char> {
    name.push('\0')
}

/// The name of the callback that registers a constant.
pub open spec fn callback_name_text(register_name: Seq<char>) -> Seq<char> {
    "__register__const__"@ + register_name + "_callback__"@
}

/// The name of a constant as the runtime reads it; see [`js_name_text`].
pub fn js_name(name: &str) -> (out: String)
    ensures
        out@ == js_name_text(name@),
{
    let mut chars: Vec<char> = Vec::new();
    push_str(&mut chars, name);
    chars.push('\0');
    string_of(&chars)
}

/// The name of the callback that registers a constant; see [`callback_name_text`].
pub fn callback_name(register_name: &str) -> (out: String)
    ensures
        out@ == callback_name_text(register_name@),
{
    let mut chars: Vec<char> = Vec::new();
    push_str(&mut chars, "__register__const__");
    push_str(&mut chars, register_name);
    push_str(&mut chars, "_callback__");
    string_of(&chars)
}

} // verus!
