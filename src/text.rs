//! Decimal text of integers and booleans, as request fields carry them.
use vstd::prelude::*;
use crate::route::{all_digits, digits_value};
use vstd::string::StringExecFns;

verus! {

pub open spec fn digit_char(d: int) -> char {
    if d == 0 {
        '0'
    } else if d == 1 {
        '1'
    } else if d == 2 {
        '2'
    } else if d == 3 {
        '3'
    } else if d == 4 {
        '4'
    } else if d == 5 {
        '5'
    } else if d == 6 {
        '6'
    } else if d == 7 {
        '7'
    } else if d == 8 {
        '8'
    } else {
        '9'
    }
}

/// Decimal digits of `n`, without leading zeros.
pub open spec fn decimal_chars(n: nat) -> Seq<char>
    decreases n,
{
    if n < 10 {
        seq![digit_char(n as int)]
    } else {
        decimal_chars(n / 10).push(digit_char((n % 10) as int))
    }
}

/// Decimal text of `n`, with a leading `-` when negative.
pub open spec fn int_text(n: int) -> Seq<char> {
    if n < 0 {
        seq!['-'] + decimal_chars((-n) as nat)
    } else {
        decimal_chars(n as nat)
    }
}

pub open spec fn bool_text(b: bool) -> Seq<char> {
    if b {
        "true"@
    } else {
        "false"@
    }
}

pub(crate) fn digit_text(d: u64) -> (r: &'static str)
    requires
        d < 10,
    ensures
        r@ == seq![digit_char(d as int)],
{
    if d == 0 {
        proof { reveal_strlit("0"); }
        "0"
    } else if d == 1 {
        proof { reveal_strlit("1"); }
        "1"
    } else if d == 2 {
        proof { reveal_strlit("2"); }
        "2"
    } else if d == 3 {
        proof { reveal_strlit("3"); }
        "3"
    } else if d == 4 {
        proof { reveal_strlit("4"); }
        "4"
    } else if d == 5 {
        proof { reveal_strlit("5"); }
        "5"
    } else if d == 6 {
        proof { reveal_strlit("6"); }
        "6"
    } else if d == 7 {
        proof { reveal_strlit("7"); }
        "7"
    } else if d == 8 {
        proof { reveal_strlit("8"); }
        "8"
    } else {
        proof { reveal_strlit("9"); }
        "9"
    }
}

fn push_digits(s: &mut String, n: u64)
    ensures
        final(s)@ == old(s)@ + decimal_chars(n as nat),
    decreases n,
{
    if n >= 10 {
        push_digits(s, n / 10);
    }
    s.append(digit_text(n % 10));
    assert(final(s)@ =~= old(s)@ + decimal_chars(n as nat));
}

/// The decimal text of a signed integer.
pub fn i64_text(n: i64) -> (r: String)
    ensures
        r@ == int_text(n as int),
{
    let mut s = String::new();
    if n < 0 {
        proof { reveal_strlit("-"); }
        s.append("-");
        let m: u64 = (0i128 - n as i128) as u64;
        push_digits(&mut s, m);
        assert(s@ =~= int_text(n as int));
    } else {
        push_digits(&mut s, n as u64);
        assert(s@ =~= int_text(n as int));
    }
    s
}

/// `true` or `false`.
pub fn bool_string(b: bool) -> (r: String)
    ensures
        r@ == bool_text(b),
{
    if b {
        "true".to_owned()
    } else {
        "false".to_owned()
    }
}

pub proof fn lemma_digits_nonneg(s: Seq<u8>)
    requires
        all_digits(s),
    ensures
        digits_value(s) >= 0,
    decreases s.len(),
{
    if s.len() > 0 {
        lemma_digits_nonneg(s.drop_last());
    }
}

/// The value of the digits of `b` from `from` to `to`, if that is a
/// non-empty run of digits whose value is at most `limit`.
pub fn parse_digits(b: &[u8], from: usize, to: usize, limit: u64) -> (r: Option<u64>)
    requires
        from <= to <= b@.len(),
    ensures
        ({
            let s = b@.subrange(from as int, to as int);
            r == if s.len() > 0 && all_digits(s) && digits_value(s) <= limit {
                Some(digits_value(s) as u64)
            } else {
                None::<u64>
            }
        }),
{
    let ghost s = b@.subrange(from as int, to as int);
    if from == to {
        return None;
    }
    let mut acc: u128 = 0;
    let mut over = false;
    let mut i: usize = from;
    while i < to
        invariant
            from <= i <= to <= b@.len(),
            s == b@.subrange(from as int, to as int),
            all_digits(b@.subrange(from as int, i as int)),
            !over ==> acc == digits_value(b@.subrange(from as int, i as int)) && acc <= limit,
            over ==> digits_value(b@.subrange(from as int, i as int)) > limit,
        decreases to - i,
    {
        let d = b[i];
        let ghost pre = b@.subrange(from as int, i as int);
        let ghost next = b@.subrange(from as int, i + 1);
        assert(next.drop_last() =~= pre);
        if d < 48 || d > 57 {
            assert(s[i - from] == d);
            return None;
        }
        assert(all_digits(next));
        if !over {
            acc = acc * 10 + (d - 48) as u128;
            if acc > limit as u128 {
                over = true;
            }
        } else {
            proof {
                lemma_digits_nonneg(pre);
                let v = digits_value(pre);
                assert(v * 10 + (d - 48) > limit) by (nonlinear_arith)
                    requires
                        v > limit,
                        d >= 48,
                        limit >= 0,
                ;
            }
        }
        i = i + 1;
    }
    assert(b@.subrange(from as int, i as int) =~= s);
    if over {
        None
    } else {
        Some(acc as u64)
    }
}

/// The integer that decimal text stands for: digits with an optional
/// leading `-`.
pub open spec fn signed_value(s: Seq<u8>) -> Option<int> {
    if s.len() > 0 && s[0] == 45u8 {
        let d = s.skip(1);
        if d.len() > 0 && all_digits(d) {
            Some(-digits_value(d))
        } else {
            None
        }
    } else if s.len() > 0 && all_digits(s) {
        Some(digits_value(s))
    } else {
        None
    }
}

pub open spec fn in_i64(v: int) -> bool {
    i64::MIN <= v <= i64::MAX
}

/// The `i64` that `text` holds in decimal, if any.
pub fn parse_i64(text: &str) -> (r: Option<i64>)
    ensures
        r == match signed_value(crate::protocol::text_bytes(text@)) {
            Some(v) => if in_i64(v) {
                Some(v as i64)
            } else {
                None::<i64>
            },
            None => None::<i64>,
        },
{
    let b = text.as_bytes();
    let n = b.len();
    let ghost s = b@;
    assert(s.subrange(0, n as int) =~= s);
    if n > 0 && b[0] == 45u8 {
        assert(s.subrange(1, n as int) =~= s.skip(1));
        match parse_digits(b, 1, n, 0x8000_0000_0000_0000u64) {
            None => {
                proof {
                    let d = s.skip(1);
                    if d.len() > 0 && all_digits(d) {
                        lemma_digits_nonneg(d);
                    }
                }
                None
            },
            Some(m) => {
                proof {
                    lemma_digits_nonneg(s.skip(1));
                }
                let v: i128 = 0i128 - m as i128;
                Some(v as i64)
            },
        }
    } else {
        proof {
            if n > 0 && all_digits(s) {
                lemma_digits_nonneg(s);
            }
        }
        match parse_digits(b, 0, n, 0x7fff_ffff_ffff_ffffu64) {
            None => None,
            Some(m) => Some(m as i64),
        }
    }
}

/// The `u32` that `text` holds in decimal digits, if any.
pub fn parse_u32(text: &str) -> (r: Option<u32>)
    ensures
        ({
            let s = crate::protocol::text_bytes(text@);
            r == if s.len() > 0 && all_digits(s) && digits_value(s) <= u32::MAX {
                Some(digits_value(s) as u32)
            } else {
                None::<u32>
            }
        }),
{
    let b = text.as_bytes();
    assert(b@.subrange(0, b@.len() as int) =~= b@);
    proof {
        if all_digits(b@) {
            lemma_digits_nonneg(b@);
        }
    }
    match parse_digits(b, 0, b.len(), 0xffff_ffffu64) {
        Some(v) => Some(v as u32),
        None => None,
    }
}

} // verus!
