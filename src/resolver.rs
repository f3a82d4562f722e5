//! Name-server address lists: a fixed list, or text of addresses
//! separated by `;` as an environment variable or an HTTP endpoint gives it.
use crate::protocol::{text_bytes, utf8_text};
use crate::route::{first_pos, lemma_first_pos_bound};
use crate::wire::copy_range;
use vstd::prelude::*;
use vstd::utf8::{decode_utf8, valid_utf8};

verus! {

/// The pieces of `s` between `;` separators, empty ones included.
pub open spec fn segments(s: Seq<u8>) -> Seq<Seq<u8>>
    decreases s.len(),
{
    let k = first_pos(s, 0x3bu8);
    if k >= s.len() {
        seq![s]
    } else {
        seq![s.take(k as int)] + segments(s.skip(k as int + 1))
    }
}

fn find_semicolon(b: &[u8], from: usize) -> (r: usize)
    requires
        from <= b@.len(),
    ensures
        r == from + first_pos(b@.skip(from as int), 0x3bu8),
        r <= b@.len(),
{
    let mut i: usize = from;
    assert(b@.skip(from as int) =~= b@.subrange(from as int, b@.len() as int));
    while i < b.len()
        invariant
            from <= i <= b@.len(),
            first_pos(b@.skip(from as int), 0x3bu8) == (i - from) + first_pos(b@.skip(i as int), 0x3bu8),
        decreases b@.len() - i,
    {
        if b[i] == 0x3bu8 {
            proof {
                lemma_first_pos_bound(b@.skip(i as int), 0x3bu8);
            }
            return i;
        }
        assert(b@.skip(i as int).skip(1) =~= b@.skip(i + 1));
        i = i + 1;
    }
    i
}

/// The addresses of a `;`-separated list, or `None` where a piece is not
/// valid UTF-8.
pub fn split_addresses(text: &str) -> (r: Option<Vec<String>>)
    ensures
        r.is_some() == (forall|i: int| 0 <= i < segments(text_bytes(text@)).len() ==> valid_utf8(#[trigger] segments(text_bytes(text@))[i])),
        r.is_some() ==> r.unwrap()@.len() == segments(text_bytes(text@)).len() && forall|i: int|
            0 <= i < r.unwrap()@.len() ==> (#[trigger] r.unwrap()@[i])@ == decode_utf8(segments(text_bytes(text@))[i]),
{
    let b = text.as_bytes();
    let n = b.len();
    let ghost whole = b@;
    let mut out: Vec<String> = Vec::new();
    let mut p: usize = 0;
    let ghost mut done: Seq<Seq<u8>> = Seq::empty();
    assert(whole.skip(0) =~= whole);
    assert(done + segments(whole) =~= segments(whole));
    loop
        invariant
            p <= n,
            n == b@.len(),
            whole == b@,
            whole == text_bytes(text@),
            segments(whole) == done + segments(whole.skip(p as int)),
            out@.len() == done.len(),
            forall|i: int| 0 <= i < done.len() ==> valid_utf8(#[trigger] done[i]) && out@[i]@ == decode_utf8(done[i]),
        decreases n - p,
    {
        let ghost tail = whole.skip(p as int);
        let k = find_semicolon(b, p);
        assert(tail.take(k - p) =~= b@.subrange(p as int, k as int));
        let piece = copy_range(b, p, k);
        match utf8_text(piece) {
            Some(s) => {
                out.push(s);
            },
            None => {
                proof {
                    if k >= n {
                        assert(segments(tail) == seq![tail]);
                        assert(tail =~= tail.take(k - p));
                    }
                    assert(segments(whole)[done.len() as int] == tail.take(k - p));
                }
                return None;
            },
        }
        if k >= n {
            proof {
                assert(tail =~= b@.subrange(p as int, k as int));
                assert(segments(tail) == seq![tail]);
                done = done.push(tail);
                assert(segments(whole) =~= done);
            }
            return Some(out);
        }
        proof {
            assert(tail.skip(k - p + 1) =~= whole.skip(k + 1));
            assert(segments(tail) == seq![tail.take(k - p)] + segments(whole.skip(k + 1)));
            assert(done + (seq![tail.take(k - p)] + segments(whole.skip(k + 1))) =~= done.push(tail.take(k - p)) + segments(whole.skip(k + 1)));
            done = done.push(tail.take(k - p));
        }
        p = k + 1;
    }
}

/// Addresses from the `NAMESRV_ADDR` environment variable.
#[derive(Debug, Clone, Copy)]
pub struct EnvResolver;

impl EnvResolver {
    /// The addresses that a value of the variable lists; none without one.
    pub fn addresses_of(value: Option<&str>) -> (r: Vec<String>)
        ensures
            value.is_none() ==> r@.len() == 0,
            value.is_some() ==> ({
                let segs = segments(text_bytes(value.unwrap()@));
                if forall|i: int| 0 <= i < segs.len() ==> valid_utf8(#[trigger] segs[i]) {
                    r@.len() == segs.len() && forall|i: int|
                        0 <= i < r@.len() ==> (#[trigger] r@[i])@ == decode_utf8(segs[i])
                } else {
                    r@.len() == 0
                }
            }),
    {
        match value {
            Some(text) => match split_addresses(text) {
                Some(v) => v,
                None => Vec::new(),
            },
            None => Vec::new(),
        }
    }
}

/// A fixed list of addresses.
#[derive(Debug, Clone)]
pub struct StaticResolver {
    pub addrs: Vec<String>,
}

impl StaticResolver {
    pub fn new(addrs: Vec<String>) -> (r: StaticResolver)
        ensures
            r.addrs@ == addrs@,
    {
        StaticResolver { addrs }
    }

    pub fn resolve(&self) -> (r: Vec<String>)
        ensures
            r@.len() == self.addrs@.len(),
            forall|i: int| 0 <= i < r@.len() ==> (#[trigger] r@[i])@ == self.addrs@[i]@,
    {
        let mut r: Vec<String> = Vec::new();
        let mut i: usize = 0;
        while i < self.addrs.len()
            invariant
                i <= self.addrs@.len(),
                r@.len() == i,
                forall|j: int| 0 <= j < i ==> (#[trigger] r@[j])@ == self.addrs@[j]@,
            decreases self.addrs@.len() - i,
        {
            r.push(self.addrs[i].clone());
            i = i + 1;
        }
        r
    }
}

/// An explicit list where one is given, else the fallback's list.
pub fn passthrough(explicit: Vec<String>, fallback: Vec<String>) -> (r: Vec<String>)
    ensures
        explicit@.len() > 0 ==> r@ == explicit@,
        explicit@.len() == 0 ==> r@ == fallback@,
{
    if explicit.len() == 0 {
        fallback
    } else {
        explicit
    }
}

} // verus!
