//! Turning the bytes of one line read off a connection into text.

use vstd::prelude::*;
use vstd::string::StringExecFns;

verus! {

/// What `String::from_utf8_lossy` makes of `b`.
pub uninterp spec fn utf8_lossy(b: Seq<u8>) -> Seq<char>;

/// Relies on `String::from_utf8_lossy`: valid UTF-8 is decoded, each
/// invalid sequence becomes U+FFFD; the result depends on the bytes alone.
/// In particular ASCII bytes come back as the same characters.
#[verifier::external_body]
fn decode_lossy(b: &[u8]) -> (r: String)
    ensures
        r@ == utf8_lossy(b@),
        (forall|i: int| 0 <= i < b@.len() ==> b@[i] < 0x80) ==> r@.len() == b@.len() && forall|
            i: int,
        | 0 <= i < b@.len() ==> r@[i] as u32 == b@[i] as u32,
{
    String::from_utf8_lossy(b).into_owned()
}

/// `s` with a line terminator at its end: unchanged where it already ends in
/// one, else with one appended.
pub open spec fn terminated(s: Seq<char>) -> Seq<char> {
    if s.len() > 0 && s.last() == '\n' {
        s
    } else {
        s.push('\n')
    }
}

/// Make sure `line` ends in a terminator, as the rest of the relay expects;
/// the last line of a stream may lack one.
pub fn finish_line(line: String) -> (r: String)
    ensures
        r@ == terminated(line@),
{
    let n = line.unicode_len();
    if n > 0 && line.as_str().get_char(n - 1) == '\n' {
        line
    } else {
        let ghost before = line@;
        let mut line = line;
        line.append("\n");
        proof {
            reveal_strlit("\n");
        }
        assert(line@ =~= before.push('\n'));
        line
    }
}

/// The text of one line read off a connection, terminator included: the
/// bytes decoded leniently, with a terminator added where the stream ended
/// without one.
pub fn line_from_bytes(b: &[u8]) -> (r: String)
    ensures
        r@ == terminated(utf8_lossy(b@)),
        (forall|i: int| 0 <= i < b@.len() ==> b@[i] < 0x80) ==> utf8_lossy(b@).len() == b@.len()
            && forall|i: int| 0 <= i < b@.len() ==> utf8_lossy(b@)[i] as u32 == b@[i] as u32,
{
    finish_line(decode_lossy(b))
}

} // verus!
