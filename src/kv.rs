//! The key-value store behind a one-datagram-per-request protocol: `k=v`
//! stores `v` under `k` (splitting at the first `=`), a bare `k` asks for
//! its value, and `version` asks for the store's version.

use vstd::prelude::*;
use vstd::string::StringSliceAdditionalSpecFns;

verus! {

/// ASCII `=`.
pub const EQUALS: u8 = 61;

/// The request for the version, and the one key that cannot be written.
pub const VERSION_REQUEST: &'static str = "version";

/// The reply to a version request.
pub const VERSION: &'static str = "version=Ken's Key-Value Store v -0.1";

/// The stored pairs as mathematics, in order of first insertion.
pub type Pairs = Seq<(Seq<u8>, Seq<u8>)>;

/// No key appears twice.
pub open spec fn keys_unique(s: Pairs) -> bool {
    forall|i: int, j: int| 0 <= i < j < s.len() ==> s[i].0 != s[j].0
}

/// `k` is stored.
pub open spec fn has_key(s: Pairs, k: Seq<u8>) -> bool {
    exists|i: int| 0 <= i < s.len() && s[i].0 == k
}

/// The place of key `k` (meaningful where it is stored).
pub open spec fn key_index(s: Pairs, k: Seq<u8>) -> int {
    choose|i: int| 0 <= i < s.len() && s[i].0 == k
}

/// `s` with `v` stored under `k`: replaced in place, or added at the end.
pub open spec fn store(s: Pairs, k: Seq<u8>, v: Seq<u8>) -> Pairs {
    if has_key(s, k) {
        s.update(key_index(s, k), (k, v))
    } else {
        s.push((k, v))
    }
}

/// `d` holds an `=`.
pub open spec fn has_equals(d: Seq<u8>) -> bool {
    exists|i: int| 0 <= i < d.len() && d[i] == EQUALS
}

/// The place of the first `=` in `d` (meaningful where it has one).
pub open spec fn first_equals(d: Seq<u8>) -> int {
    choose|i: int| 0 <= i < d.len() && d[i] == EQUALS && forall|j: int| 0 <= j < i ==> d[j] != EQUALS
}

/// The new pairs and the reply, if any, for request `d` on pairs `s`.
pub open spec fn kv_step(s: Pairs, d: Seq<u8>) -> (Pairs, Option<Seq<u8>>) {
    if d == VERSION_REQUEST.spec_bytes() {
        (s, Some(VERSION.spec_bytes()))
    } else if has_equals(d) {
        let i = first_equals(d);
        if d.take(i) == VERSION_REQUEST.spec_bytes() {
            (s, None)
        } else {
            (store(s, d.take(i), d.skip(i + 1)), None)
        }
    } else if has_key(s, d) {
        (s, Some(d + seq![EQUALS] + s[key_index(s, d)].1))
    } else {
        (s, None)
    }
}

proof fn lemma_key_index(s: Pairs, k: Seq<u8>, at: int)
    requires
        keys_unique(s),
        0 <= at < s.len(),
        s[at].0 == k,
    ensures
        has_key(s, k),
        key_index(s, k) == at,
{
    let i = key_index(s, k);
    assert(0 <= i < s.len() && s[i].0 == k);
}

fn bytes_eq(a: &[u8], b: &[u8]) -> (r: bool)
    ensures
        r == (a@ == b@),
{
    if a.len() != b.len() {
        return false;
    }
    let mut i: usize = 0;
    while i < a.len()
        invariant
            a@.len() == b@.len(),
            i <= a@.len(),
            forall|j: int| 0 <= j < i ==> a@[j] == b@[j],
        decreases a@.len() - i,
    {
        if a[i] != b[i] {
            return false;
        }
        i += 1;
    }
    assert(a@ =~= b@);
    true
}

/// `b[from..to]` as a vector.
fn copy_span(b: &[u8], from: usize, to: usize) -> (r: Vec<u8>)
    requires
        from <= to <= b@.len(),
    ensures
        r@ == b@.subrange(from as int, to as int),
{
    let mut out: Vec<u8> = Vec::new();
    let mut i: usize = from;
    while i < to
        invariant
            from <= i <= to <= b@.len(),
            out@ == b@.subrange(from as int, i as int),
        decreases to - i,
    {
        out.push(b[i]);
        assert(out@ =~= b@.subrange(from as int, i + 1));
        i += 1;
    }
    out
}

/// The key-value store.
pub struct KvStore {
    pairs: Vec<(Vec<u8>, Vec<u8>)>,
}

impl View for KvStore {
    type V = Pairs;

    closed spec fn view(&self) -> Pairs {
        self.pairs@.map_values(|p: (Vec<u8>, Vec<u8>)| (p.0@, p.1@))
    }
}

impl KvStore {
    /// Each key is stored once.
    pub open spec fn wf(&self) -> bool {
        keys_unique(self@)
    }

    /// An empty store.
    pub fn new() -> (r: KvStore)
        ensures
            r.wf(),
            r@ == Seq::<(Seq<u8>, Seq<u8>)>::empty(),
    {
        let r = KvStore { pairs: Vec::new() };
        assert(r@ =~= Seq::<(Seq<u8>, Seq<u8>)>::empty());
        r
    }

    fn find(&self, k: &[u8]) -> (r: Option<usize>)
        requires
            self.wf(),
        ensures
            r is Some <==> has_key(self@, k@),
            r is Some ==> r->Some_0 < self@.len() && r->Some_0 == key_index(self@, k@),
    {
        let mut i: usize = 0;
        while i < self.pairs.len()
            invariant
                self.wf(),
                i <= self.pairs@.len(),
                forall|j: int| 0 <= j < i ==> self@[j].0 != k@,
            decreases self.pairs@.len() - i,
        {
            if bytes_eq(self.pairs[i].0.as_slice(), k) {
                proof {
                    lemma_key_index(self@, k@, i as int);
                }
                return Some(i);
            }
            i += 1;
        }
        None
    }

    /// Handle one request and return the reply to send, if any.
    pub fn handle(&mut self, data: &[u8]) -> (r: Option<Vec<u8>>)
        requires
            old(self).wf(),
        ensures
            final(self).wf(),
            final(self)@ == kv_step(old(self)@, data@).0,
            r is Some <==> kv_step(old(self)@, data@).1 is Some,
            r is Some ==> r->Some_0@ == kv_step(old(self)@, data@).1->Some_0,
    {
        let vreq = VERSION_REQUEST.as_bytes();
        if bytes_eq(data, vreq) {
            let v = VERSION.as_bytes();
            return Some(copy_span(v, 0, v.len()));
        }
        let mut i: usize = 0;
        while i < data.len()
            invariant
                i <= data@.len(),
                forall|j: int| 0 <= j < i ==> data@[j] != EQUALS,
            ensures
                i <= data@.len(),
                forall|j: int| 0 <= j < i ==> data@[j] != EQUALS,
                i < data@.len() ==> data@[i as int] == EQUALS,
            decreases data@.len() - i,
        {
            if data[i] == EQUALS {
                break;
            }
            i += 1;
        }
        if i < data.len() {
            proof {
                assert(data@[i as int] == EQUALS && forall|j: int| 0 <= j < i ==> data@[j] != EQUALS);
                let f = first_equals(data@);
                if f > i {
                    assert(data@[i as int] == EQUALS);
                }
            }
            let key = copy_span(data, 0, i);
            assert(key@ =~= data@.take(i as int));
            if bytes_eq(key.as_slice(), vreq) {
                return None;
            }
            let val = copy_span(data, i + 1, data.len());
            assert(val@ =~= data@.skip(i + 1));
            match self.find(key.as_slice()) {
                Some(at) => {
                    let ghost before = self@;
                    self.pairs.set(at, (key, val));
                    assert(self@ =~= before.update(at as int, (data@.take(i as int), data@.skip(i + 1))));
                    assert forall|a: int, b: int| 0 <= a < b < self@.len() implies self@[a].0 != self@[b].0 by {
                        assert(before[a].0 != before[b].0);
                    }
                },
                None => {
                    let ghost before = self@;
                    self.pairs.push((key, val));
                    assert(self@ =~= before.push((data@.take(i as int), data@.skip(i + 1))));
                },
            }
            None
        } else {
            match self.find(data) {
                Some(at) => {
                    let mut out = copy_span(data, 0, data.len());
                    out.push(EQUALS);
                    let v = self.pairs[at].1.as_slice();
                    let mut j: usize = 0;
                    let ghost head = out@;
                    while j < v.len()
                        invariant
                            j <= v@.len(),
                            out@ == head + v@.take(j as int),
                        decreases v@.len() - j,
                    {
                        out.push(v[j]);
                        assert(out@ =~= head + v@.take(j + 1));
                        j += 1;
                    }
                    assert(v@.take(v@.len() as int) =~= v@);
                    assert(out@ =~= data@ + seq![EQUALS] + self@[at as int].1);
                    Some(out)
                },
                None => None,
            }
        }
    }
}

} // verus!
