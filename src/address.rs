//! Boguscoin addresses in chat lines: where a candidate may stand, how the
//! first one is found, and the rewrite that replaces every one of them with
//! a fixed address.

use vstd::prelude::*;
use vstd::string::StringSliceAdditionalSpecFns;

verus! {

/// ASCII space.
pub const SPACE: u8 = 32;

/// ASCII line feed.
pub const NEWLINE: u8 = 10;

/// The span `b[start..end]` has the length of an address (26 to 35 bytes),
/// starts the line or follows a space, and ends the line (its last byte
/// or beyond) or precedes a space or a line feed.
pub open spec fn well_placed(b: Seq<u8>, start: int, end: int) -> bool {
    &&& 26 <= end - start <= 35
    &&& (start == 0 || b[start - 1] == SPACE)
    &&& (end >= b.len() - 1 || b[end] == SPACE || b[end] == NEWLINE)
}

/// Whether the match `buff[start..end]` is placed as an address must be.
pub fn match_is_good(buff: &[u8], start: usize, end: usize) -> (r: bool)
    requires
        start <= end <= buff@.len(),
    ensures
        r == well_placed(buff@, start as int, end as int),
{
    let length = end - start;
    if length < 26 || length > 35 {
        return false;
    }
    if start > 0 {
        if buff[start - 1] != SPACE {
            return false;
        }
    }
    if end < buff.len() - 1 {
        if buff[end] != SPACE && buff[end] != NEWLINE {
            return false;
        }
    }
    true
}

/// A candidate address, in Lua pattern syntax: a `7` and then letters or
/// digits.
pub const BC_PATT: &'static str = "7[A-Za-z0-9]+";

/// The address every boguscoin address is rewritten to.
pub const TONYS_BC_ADDR: &'static str = "7YWHMfk9JZe0LM0g1ZauHuiSxhI";

/// An ASCII letter or digit.
pub open spec fn is_alnum(c: u8) -> bool {
    (48 <= c <= 57) || (65 <= c <= 90) || (97 <= c <= 122)
}

/// ASCII `7`.
pub const SEVEN: u8 = 55;

/// A match of `BC_PATT` can start at `i`: a `7` followed by a letter or
/// digit.
pub open spec fn starts_candidate(b: Seq<u8>, i: int) -> bool {
    0 <= i && i + 1 < b.len() && b[i] == SEVEN && is_alnum(b[i + 1])
}

/// The end of the run of letters and digits in `b` that begins at `j`.
pub open spec fn run_end(b: Seq<u8>, j: int) -> int
    decreases b.len() - j,
{
    if 0 <= j < b.len() && is_alnum(b[j]) {
        run_end(b, j + 1)
    } else {
        j
    }
}

/// The span (start, end) of the leftmost match of `BC_PATT` in `b`: the
/// first place a candidate can start, and, `+` being greedy, the end of the
/// run of letters and digits after its `7`.
#[verifier::opaque]
pub open spec fn candidate_match(b: Seq<u8>) -> Option<(int, int)> {
    if exists|i: int| starts_candidate(b, i) {
        let i = choose|i: int|
            starts_candidate(b, i) && forall|k: int| 0 <= k < i ==> !starts_candidate(b, k);
        Some((i, run_end(b, i + 1)))
    } else {
        None
    }
}

/// A `7` at `j` that no letter or digit follows: a place where the
/// matcher starts a candidate and gives up.
pub open spec fn stray_seven(b: Seq<u8>, j: int) -> bool {
    b[j] == SEVEN && (j + 1 >= b.len() || !is_alnum(b[j + 1]))
}

/// How many stray `7`s stand in `b` at or after `i`.
pub open spec fn strays_from(b: Seq<u8>, i: int) -> int
    decreases b.len() - i,
{
    if 0 <= i < b.len() {
        strays_from(b, i + 1) + if stray_seven(b, i) {
            1int
        } else {
            0
        }
    } else {
        0
    }
}

/// The most stray `7`s a subject may hold for the matcher to finish.
pub const MAX_STRAYS: usize = 196;

/// Relies on lua_patterns' `LuaPattern::new_try`, `matches_bytes` and
/// `range` for `BC_PATT`: the leftmost match is the first `7` followed by a
/// letter or digit, and runs to the end of the letters and digits after it.
/// `new_try` accepts the pattern. The matcher allows 200 nested calls per
/// search and never gives back the one each stray `7` takes; a match needs
/// three more. At most `MAX_STRAYS` stray `7`s keep `matches_bytes` from
/// reaching its `expect` on the error for a too complex pattern.
#[verifier::external_body]
fn first_match(pattern: &str, subject: &[u8]) -> (r: Option<(usize, usize)>)
    requires
        pattern@ == BC_PATT@,
        strays_from(subject@, 0) <= MAX_STRAYS,
    ensures
        match r {
            Some((a, b)) => candidate_match(subject@) == Some((a as int, b as int)) && a <= b
                <= subject@.len(),
            None => candidate_match(subject@) is None,
        },
{
    let mut patt = match lua_patterns::LuaPattern::new_try(pattern) {
        Ok(patt) => patt,
        Err(_) => return None,
    };
    if patt.matches_bytes(subject) {
        let r = patt.range();
        Some((r.start, r.end))
    } else {
        None
    }
}

/// The first well-placed candidate in `b` at or after `start`: each
/// candidate that is badly placed is skipped, and the search goes on from
/// its end.
pub open spec fn address_from(b: Seq<u8>, start: int) -> Option<(int, int)>
    decreases b.len() - start,
{
    if 0 <= start <= b.len() {
        match candidate_match(b.subrange(start, b.len() as int)) {
            None => None,
            Some((s, e)) => if 0 <= s <= e <= b.len() - start && well_placed(b, s + start, e + start) {
                Some((s + start, e + start))
            } else if 0 <= s <= e <= b.len() - start && e > 0 {
                address_from(b, e + start)
            } else {
                None
            },
        }
    } else {
        None
    }
}

proof fn lemma_address_from(b: Seq<u8>, start: int)
    ensures
        address_from(b, start) matches Some((s, e)) ==> start <= s && s + 26 <= e <= b.len()
            && well_placed(b, s, e),
    decreases b.len() - start,
{
    if 0 <= start <= b.len() {
        match candidate_match(b.subrange(start, b.len() as int)) {
            None => {},
            Some((s, e)) => {
                if 0 <= s <= e <= b.len() - start && well_placed(b, s + start, e + start) {
                } else if 0 <= s <= e <= b.len() - start && e > 0 {
                    lemma_address_from(b, e + start);
                }
            },
        }
    }
}

/// `b` from `from` on, with every well-placed address replaced by
/// `repl`.
pub open spec fn substituted(b: Seq<u8>, from: int, repl: Seq<u8>) -> Seq<u8>
    decreases b.len() - from,
{
    match address_from(b, from) {
        Some((s, e)) => if from <= s && s < e <= b.len() {
            b.subrange(from, s) + repl + substituted(b, e, repl)
        } else {
            b.subrange(from, b.len() as int)
        },
        None => if 0 <= from <= b.len() {
            b.subrange(from, b.len() as int)
        } else {
            Seq::empty()
        },
    }
}

proof fn lemma_strays_mono(b: Seq<u8>, i: int, j: int)
    requires
        0 <= i <= j,
    ensures
        strays_from(b, j) <= strays_from(b, i),
    decreases j - i,
{
    if i < j {
        lemma_strays_mono(b, i + 1, j);
    }
}

proof fn lemma_strays_suffix(b: Seq<u8>, start: int, k: int)
    requires
        0 <= start <= b.len(),
        0 <= k,
    ensures
        strays_from(b.subrange(start, b.len() as int), k) == strays_from(b, start + k),
    decreases b.len() - start - k,
{
    let r = b.subrange(start, b.len() as int);
    if k < r.len() {
        lemma_strays_suffix(b, start, k + 1);
        assert(r[k] == b[start + k]);
        if k + 1 < r.len() {
            assert(r[k + 1] == b[start + k + 1]);
        }
    }
}

/// Count the stray `7`s of `b`.
pub fn count_strays(b: &[u8]) -> (r: usize)
    ensures
        r == strays_from(b@, 0),
{
    let mut count: usize = 0;
    let mut i: usize = b.len();
    while i > 0
        invariant
            i <= b@.len(),
            count == strays_from(b@, i as int),
            count <= b@.len() - i,
        decreases i,
    {
        i -= 1;
        let stray = b[i] == SEVEN && (i + 1 >= b.len() || !(
        (48 <= b[i + 1] && b[i + 1] <= 57) || (65 <= b[i + 1] && b[i + 1] <= 90) || (97 <= b[i + 1]
            && b[i + 1] <= 122)));
        if stray {
            count += 1;
        }
    }
    count
}

/// Scan `buff` from `start` for a well-placed boguscoin address and return
/// its span.
fn find_address(buff: &[u8], start: usize) -> (r: Option<(usize, usize)>)
    requires
        start <= buff@.len(),
        strays_from(buff@, start as int) <= MAX_STRAYS,
    ensures
        match r {
            Some((s, e)) => address_from(buff@, start as int) == Some((s as int, e as int)),
            None => address_from(buff@, start as int) is None,
        },
    decreases buff@.len() - start,
{
    let mut rest: Vec<u8> = Vec::new();
    let mut i: usize = start;
    while i < buff.len()
        invariant
            start <= i <= buff@.len(),
            rest@ == buff@.subrange(start as int, i as int),
        decreases buff@.len() - i,
    {
        rest.push(buff[i]);
        assert(rest@ =~= buff@.subrange(start as int, i + 1));
        i += 1;
    }
    proof {
        lemma_strays_suffix(buff@, start as int, 0);
    }
    match first_match(BC_PATT, rest.as_slice()) {
        None => None,
        Some((s, e)) => {
            let s = s + start;
            let e = e + start;
            if match_is_good(buff, s, e) {
                Some((s, e))
            } else if e > start {
                proof {
                    lemma_strays_mono(buff@, start as int, e as int);
                }
                find_address(buff, e)
            } else {
                None
            }
        },
    }
}

/// Copy `b[from..to]` onto the end of `out`.
fn push_span(out: &mut Vec<u8>, b: &[u8], from: usize, to: usize)
    requires
        from <= to <= b@.len(),
    ensures
        final(out)@ == old(out)@ + b@.subrange(from as int, to as int),
{
    let mut i: usize = from;
    while i < to
        invariant
            from <= i <= to <= b@.len(),
            out@ == old(out)@ + b@.subrange(from as int, i as int),
        decreases to - i,
    {
        out.push(b[i]);
        assert(out@ =~= old(out)@ + b@.subrange(from as int, i + 1));
        i += 1;
    }
}

/// `buff` with every boguscoin address, from the one at `first` on,
/// replaced by Tony's.
fn substitute_addresses(buff: &[u8], first: (usize, usize)) -> (r: Vec<u8>)
    requires
        address_from(buff@, 0) == Some((first.0 as int, first.1 as int)),
        strays_from(buff@, 0) <= MAX_STRAYS,
    ensures
        r@ == substituted(buff@, 0, TONYS_BC_ADDR.spec_bytes()),
{
    let tony = TONYS_BC_ADDR.as_bytes();
    let ghost repl = TONYS_BC_ADDR.spec_bytes();
    let mut msg: Vec<u8> = Vec::new();
    let mut src_idx: usize = 0;
    let mut cur: Option<(usize, usize)> = Some(first);
    proof {
        lemma_address_from(buff@, 0);
    }
    while cur.is_some()
        invariant
            src_idx <= buff@.len(),
            strays_from(buff@, 0) <= MAX_STRAYS,
            tony@ == repl,
            match cur {
                Some((s, e)) => address_from(buff@, src_idx as int) == Some((s as int, e as int)),
                None => address_from(buff@, src_idx as int) is None,
            },
            msg@ + substituted(buff@, src_idx as int, repl) == substituted(buff@, 0, repl),
        decreases buff@.len() - src_idx,
    {
        let (s, e) = cur.unwrap();
        proof {
            lemma_address_from(buff@, src_idx as int);
        }
        let ghost before = msg@;
        push_span(&mut msg, buff, src_idx, s);
        push_span(&mut msg, tony, 0, tony.len());
        proof {
            assert(tony@.subrange(0, tony@.len() as int) =~= tony@);
            assert(before + substituted(buff@, src_idx as int, repl) =~= msg@ + substituted(
                buff@,
                e as int,
                repl,
            ));
        }
        src_idx = e;
        proof {
            lemma_strays_mono(buff@, 0, src_idx as int);
        }
        cur = find_address(buff, src_idx);
    }
    push_span(&mut msg, buff, src_idx, buff.len());
    msg
}

/// `line` with every boguscoin address replaced by Tony's, or `None` where
/// it holds more than `MAX_STRAYS` stray `7`s, too many for the matcher.
pub fn rewrite_addresses(line: &[u8]) -> (r: Option<Vec<u8>>)
    ensures
        r is None <==> strays_from(line@, 0) > MAX_STRAYS,
        r is Some ==> r->Some_0@ == substituted(line@, 0, TONYS_BC_ADDR.spec_bytes()),
{
    if count_strays(line) > MAX_STRAYS {
        return None;
    }
    match find_address(line, 0) {
        Some(first) => Some(substitute_addresses(line, first)),
        None => {
            let mut out: Vec<u8> = Vec::new();
            push_span(&mut out, line, 0, line.len());
            assert(out@ =~= line@.subrange(0, line@.len() as int));
            Some(out)
        },
    }
}

} // verus!
