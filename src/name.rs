//! Display names: what a valid one is, and how one is read off the first
//! line a client sends.

use vstd::prelude::*;

verus! {

/// A character allowed in a display name: an ASCII letter or digit.
pub open spec fn is_name_char(c: char) -> bool {
    ('a' <= c && c <= 'z') || ('A' <= c && c <= 'Z') || ('0' <= c && c <= '9')
}

/// A display name is one or more ASCII letters or digits.
pub open spec fn valid_name(s: Seq<char>) -> bool {
    s.len() > 0 && forall|i: int| 0 <= i < s.len() ==> is_name_char(#[trigger] s[i])
}

/// A character with Unicode's White_Space property.
pub open spec fn is_white_space(c: char) -> bool {
    ('\u{9}' <= c && c <= '\u{d}') || c == ' ' || c == '\u{85}' || c == '\u{a0}' || c
        == '\u{1680}' || ('\u{2000}' <= c && c <= '\u{200a}') || c == '\u{2028}' || c
        == '\u{2029}' || c == '\u{202f}' || c == '\u{205f}' || c == '\u{3000}'
}

/// `s` without its leading white space.
pub open spec fn trim_start(s: Seq<char>) -> Seq<char>
    decreases s.len(),
{
    if s.len() > 0 && is_white_space(s[0]) {
        trim_start(s.drop_first())
    } else {
        s
    }
}

/// `s` without its trailing white space.
pub open spec fn trim_end(s: Seq<char>) -> Seq<char>
    decreases s.len(),
{
    if s.len() > 0 && is_white_space(s.last()) {
        trim_end(s.drop_last())
    } else {
        s
    }
}

/// `s` without its leading and trailing white space.
pub open spec fn trim_of(s: Seq<char>) -> Seq<char> {
    trim_end(trim_start(s))
}

/// Relies on `str::trim`: it removes leading and trailing characters with
/// the Unicode White_Space property.
#[verifier::external_body]
pub(crate) fn trimmed(s: &str) -> (r: String)
    ensures
        r@ == trim_of(s@),
{
    s.trim().to_string()
}

/// Whether `name` is a valid display name.
pub fn name_ok(name: &str) -> (r: bool)
    ensures
        r == valid_name(name@),
{
    if name.is_empty() {
        return false;
    }
    for c in it: name.chars()
        invariant
            it.seq() == name@,
            forall|i: int| 0 <= i < it.index() ==> is_name_char(#[trigger] name@[i]),
    {
        if !(('a' <= c && c <= 'z') || ('A' <= c && c <= 'Z') || ('0' <= c && c <= '9')) {
            return false;
        }
    }
    true
}

} // verus!
