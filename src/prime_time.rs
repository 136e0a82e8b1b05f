//! The decisions of the line-based primality service: cutting the byte
//! stream into request lines, answering a request once it has been read,
//! and the reply line.

use vstd::prelude::*;
use vstd::string::StringExecFns;
use crate::primes::{prime, Primes};

verus! {

/// ASCII line feed.
pub const LINE_END: u8 = 10;

/// The only method the service knows.
pub const METHOD: &'static str = "isPrime";

/// The lines `ls`, each followed by a line feed.
pub open spec fn joined_lines(ls: Seq<Seq<u8>>) -> Seq<u8>
    decreases ls.len(),
{
    if ls.len() == 0 {
        Seq::empty()
    } else {
        joined_lines(ls.drop_last()) + ls.last() + seq![LINE_END]
    }
}

/// `s` holds no line feed.
pub open spec fn no_line_end(s: Seq<u8>) -> bool {
    forall|i: int| 0 <= i < s.len() ==> s[i] != LINE_END
}

/// Append the bytes `from` to the unfinished line `carry`, and cut off
/// every line that is now complete: the complete lines, without their line
/// feeds, and what is left unfinished.
pub fn split_lines(carry: Vec<u8>, from: &[u8]) -> (r: (Vec<Vec<u8>>, Vec<u8>))
    requires
        no_line_end(carry@),
    ensures
        joined_lines(r.0@.map_values(|l: Vec<u8>| l@)) + r.1@ == carry@ + from@,
        no_line_end(r.1@),
        forall|i: int| 0 <= i < r.0@.len() ==> no_line_end(#[trigger] r.0@[i]@),
{
    let mut lines: Vec<Vec<u8>> = Vec::new();
    let mut buff = carry;
    let mut i: usize = 0;
    while i < from.len()
        invariant
            i <= from@.len(),
            joined_lines(lines@.map_values(|l: Vec<u8>| l@)) + buff@ == carry@ + from@.take(i as int),
            no_line_end(buff@),
            forall|j: int| 0 <= j < lines@.len() ==> no_line_end(#[trigger] lines@[j]@),
        decreases from@.len() - i,
    {
        let b = from[i];
        let ghost before = lines@.map_values(|l: Vec<u8>| l@);
        let ghost old_buff = buff@;
        assert(from@.take(i + 1) =~= from@.take(i as int).push(b));
        if b == LINE_END {
            let ghost line = buff@;
            lines.push(buff);
            buff = Vec::new();
            assert(lines@.map_values(|l: Vec<u8>| l@) =~= before.push(line));
            assert(joined_lines(before.push(line)) == joined_lines(before) + line + seq![LINE_END]) by {
                assert(before.push(line).drop_last() =~= before);
            }
            assert(joined_lines(before) + line + seq![LINE_END] + buff@ =~= (joined_lines(before)
                + line).push(b));
        } else {
            buff.push(b);
            assert(joined_lines(before) + buff@ =~= (joined_lines(before) + old_buff).push(b));
        }
        i += 1;
    }
    assert(from@.take(from@.len() as int) =~= from@);
    (lines, buff)
}

/// A request as the JSON layer reads it.
pub enum Request {
    /// A request whose number is an integer.
    Int { method: String, number: i64 },
    /// A request whose number is not an integer.
    Float { method: String },
    /// A line that is not a request at all.
    Malformed,
}

/// The answer to `req`: whether its number is prime, or `None` for a
/// malformed request or an unknown method. A number that is not an integer
/// is not prime.
pub fn answer(primes: &mut Primes, req: &Request) -> (r: Option<bool>)
    requires
        old(primes).wf(),
    ensures
        final(primes).wf(),
        match req {
            Request::Int { method, number } => if method@ != METHOD@ {
                r is None
            } else {
                r == Some(prime(*number as int))
            },
            Request::Float { method } => if method@ != METHOD@ {
                r is None
            } else {
                r == Some(false)
            },
            Request::Malformed => r is None,
        },
{
    let known = String::from_str(METHOD);
    match req {
        Request::Int { method, number } => {
            if !method.eq(&known) {
                None
            } else if *number < 2 {
                Some(false)
            } else {
                Some(primes.is_prime(*number as u64))
            }
        },
        Request::Float { method } => {
            if !method.eq(&known) {
                None
            } else {
                Some(false)
            }
        },
        Request::Malformed => None,
    }
}

/// The reply line for an answer; a fixed malformed line where there is
/// none.
pub open spec fn response_line(a: Option<bool>) -> Seq<char> {
    match a {
        Some(true) => "{\"method\":\"isPrime\",\"prime\":true}\n"@,
        Some(false) => "{\"method\":\"isPrime\",\"prime\":false}\n"@,
        None => "{{}}\n"@,
    }
}

/// Render the reply line for an answer.
pub fn response_text(a: Option<bool>) -> (r: String)
    ensures
        r@ == response_line(a),
{
    match a {
        Some(true) => String::from_str("{\"method\":\"isPrime\",\"prime\":true}\n"),
        Some(false) => String::from_str("{\"method\":\"isPrime\",\"prime\":false}\n"),
        None => String::from_str("{{}}\n"),
    }
}

} // verus!
