//! The nine-byte binary messages of the price-tracking protocol: a kind
//! byte, then two big-endian signed 32-bit integers.

use vstd::prelude::*;

verus! {

/// A timestamped price to record.
#[derive(Clone, Copy, Debug, PartialEq, Eq, Structural)]
pub struct Insert {
    pub timestamp: i32,
    pub price: i32,
}

/// A request for the mean price over a closed range of timestamps.
#[derive(Clone, Copy, Debug, PartialEq, Eq, Structural)]
pub struct Query {
    pub begin: i32,
    pub end: i32,
}

/// One decoded client message.
#[derive(Clone, Copy, Debug, PartialEq, Eq, Structural)]
pub enum Msg {
    I(Insert),
    Q(Query),
}

/// The kind byte of an insert, ASCII `I`.
pub const KIND_INSERT: u8 = 73;

/// The kind byte of a query, ASCII `Q`.
pub const KIND_QUERY: u8 = 81;

/// Why a message could not be decoded.
#[derive(Clone, Copy, Debug, PartialEq, Eq, Structural)]
pub enum DecodeError {
    /// The kind byte is neither `I` nor `Q`.
    UnknownKind(u8),
}

/// The signed 32-bit integer whose big-endian two's-complement bytes are
/// `b[at..at + 4]`.
pub open spec fn be_i32_at(b: Seq<u8>, at: int) -> int {
    let u = b[at] as int * 0x100_0000 + b[at + 1] as int * 0x1_0000 + b[at + 2] as int * 0x100
        + b[at + 3] as int;
    if u >= 0x8000_0000 {
        u - 0x1_0000_0000
    } else {
        u
    }
}

fn be_i32(data: &[u8; 9], at: usize) -> (r: i32)
    requires
        1 <= at <= 5,
    ensures
        r as int == be_i32_at(data@, at as int),
{
    let u: u32 = data[at] as u32 * 0x100_0000 + data[at + 1] as u32 * 0x1_0000 + data[at + 2] as u32
        * 0x100 + data[at + 3] as u32;
    if u >= 0x8000_0000 {
        (u as i64 - 0x1_0000_0000i64) as i32
    } else {
        u as i32
    }
}

impl Msg {
    /// Decode one message: `I` gives an insert of (timestamp, price), `Q` a
    /// query of (begin, end); any other kind byte is an error.
    pub fn decode(data: &[u8; 9]) -> (r: Result<Msg, DecodeError>)
        ensures
            data@[0] == KIND_INSERT ==> (r matches Ok(Msg::I(m)) && m.timestamp == be_i32_at(data@, 1)
                && m.price == be_i32_at(data@, 5)),
            data@[0] == KIND_QUERY ==> (r matches Ok(Msg::Q(m)) && m.begin == be_i32_at(data@, 1)
                && m.end == be_i32_at(data@, 5)),
            data@[0] != KIND_INSERT && data@[0] != KIND_QUERY ==> r == Err::<Msg, DecodeError>(
                DecodeError::UnknownKind(data@[0]),
            ),
    {
        let a = be_i32(data, 1);
        let b = be_i32(data, 5);
        if data[0] == KIND_INSERT {
            Ok(Msg::I(Insert { timestamp: a, price: b }))
        } else if data[0] == KIND_QUERY {
            Ok(Msg::Q(Query { begin: a, end: b }))
        } else {
            Err(DecodeError::UnknownKind(data[0]))
        }
    }
}

/// The sum of the prices in `s` whose timestamps lie in `[low, high]`.
pub open spec fn sum_in(s: Seq<(i32, i32)>, low: int, high: int) -> int
    decreases s.len(),
{
    if s.len() == 0 {
        0
    } else {
        sum_in(s.drop_last(), low, high) + if low <= s.last().0 <= high {
            s.last().1 as int
        } else {
            0
        }
    }
}

/// How many timestamps in `s` lie in `[low, high]`.
pub open spec fn count_in(s: Seq<(i32, i32)>, low: int, high: int) -> int
    decreases s.len(),
{
    if s.len() == 0 {
        0
    } else {
        count_in(s.drop_last(), low, high) + if low <= s.last().0 <= high {
            1int
        } else {
            0
        }
    }
}

/// `a / b` rounded toward zero, for `b > 0`.
pub open spec fn div_toward_zero(a: int, b: int) -> int {
    if a >= 0 {
        a / b
    } else {
        -((-a) / b)
    }
}

/// The mean price over `[low, high]`, rounded toward zero; 0 where the range
/// is empty or holds no price.
pub open spec fn mean_in(s: Seq<(i32, i32)>, low: int, high: int) -> int {
    if high < low || count_in(s, low, high) == 0 {
        0
    } else {
        div_toward_zero(sum_in(s, low, high), count_in(s, low, high))
    }
}

proof fn lemma_counts(s: Seq<(i32, i32)>, low: int, high: int)
    ensures
        0 <= count_in(s, low, high) <= s.len(),
        -0x8000_0000 * count_in(s, low, high) <= sum_in(s, low, high) <= 0x7fff_ffff * count_in(
            s,
            low,
            high,
        ),
    decreases s.len(),
{
    if s.len() > 0 {
        lemma_counts(s.drop_last(), low, high);
    }
}

/// The mean price over timestamps `[low, high]` among the recorded
/// (timestamp, price) pairs `prices`, rounded toward zero; 0 where the range
/// is empty or holds no price.
pub fn range_average(prices: &[(i32, i32)], low: i32, high: i32) -> (r: i32)
    requires
        prices@.len() < 0x1_0000_0000,
    ensures
        r == mean_in(prices@, low as int, high as int),
{
    if high < low {
        return 0;
    }
    let mut tot: i64 = 0;
    let mut n: i64 = 0;
    let mut i: usize = 0;
    while i < prices.len()
        invariant
            i <= prices@.len() < 0x1_0000_0000,
            tot == sum_in(prices@.take(i as int), low as int, high as int),
            n == count_in(prices@.take(i as int), low as int, high as int),
        decreases prices@.len() - i,
    {
        let ghost prefix = prices@.take(i as int);
        proof {
            lemma_counts(prefix, low as int, high as int);
            assert(prices@.take(i + 1).drop_last() =~= prefix);
        }
        let (ts, val) = prices[i];
        if low <= ts && ts <= high {
            tot += val as i64;
            n += 1;
        }
        i += 1;
    }
    proof {
        assert(prices@.take(prices@.len() as int) =~= prices@);
        lemma_counts(prices@, low as int, high as int);
    }
    if n == 0 {
        return 0;
    }
    let q = if tot >= 0 {
        assert(tot / n <= 0x7fff_ffff) by (nonlinear_arith)
            requires
                0 <= tot <= 0x7fff_ffff * n,
                n > 0,
        ;
        tot / n
    } else {
        assert((-(tot as int)) / (n as int) <= 0x8000_0000) by (nonlinear_arith)
            requires
                0 < -(tot as int) <= 0x8000_0000 * n,
                n > 0,
        ;
        -((-tot) / n)
    };
    q as i32
}

} // verus!
