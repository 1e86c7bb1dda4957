//! Decimal integer parsing with the rules of `str::parse` for integer types:
//! an optional sign, then one or more ASCII digits, and a value that fits.
use vstd::prelude::*;

verus! {

/// An ASCII decimal digit.
pub open spec fn is_digit(c: char) -> bool {
    '0' <= c <= '9'
}

/// Every character is an ASCII digit.
pub open spec fn all_digits(s: Seq<char>) -> bool {
    forall|i: int| 0 <= i < s.len() ==> is_digit(#[trigger] s[i])
}

/// Value of a string of digits.
pub open spec fn digits_value(s: Seq<char>) -> nat
    decreases s.len(),
{
    if s.len() == 0 {
        0
    } else {
        digits_value(s.drop_last()) * 10 + ((s.last() as u32) - 48) as nat
    }
}

/// `s` without a leading `+`.
pub open spec fn unsigned_body(s: Seq<char>) -> Seq<char> {
    if s.len() > 0 && s[0] == '+' {
        s.drop_first()
    } else {
        s
    }
}

/// An unsigned integer in decimal, at most `max` (as `str::parse::<uN>`).
pub open spec fn parse_unsigned(s: Seq<char>, max: nat) -> Option<nat> {
    let b = unsigned_body(s);
    if b.len() > 0 && all_digits(b) && digits_value(b) <= max {
        Some(digits_value(b))
    } else {
        None
    }
}

/// A signed integer in decimal, in `[min, max]` (as `str::parse::<iN>`).
pub open spec fn parse_signed(s: Seq<char>, min: int, max: int) -> Option<int> {
    if s.len() > 0 && s[0] == '-' {
        let b = s.drop_first();
        if b.len() > 0 && all_digits(b) && -(digits_value(b) as int) >= min {
            Some(-(digits_value(b) as int))
        } else {
            None
        }
    } else {
        let b = unsigned_body(s);
        if b.len() > 0 && all_digits(b) && digits_value(b) <= max {
            Some(digits_value(b) as int)
        } else {
            None
        }
    }
}

/// Digits of `v[from..]` read as a number no greater than `max`; `None`
/// when a character is not a digit, the part is empty, or the value is
/// greater than `max`.
fn digits_from(v: &Vec<char>, from: usize, max: u64) -> (r: Option<u64>)
    requires
        from <= v@.len(),
    ensures
        ({
            let b = v@.subrange(from as int, v@.len() as int);
            match r {
                Some(x) => b.len() > 0 && all_digits(b) && digits_value(b) <= max && x == digits_value(b),
                None => !(b.len() > 0 && all_digits(b) && digits_value(b) <= max),
            }
        }),
{
    let n = v.len();
    if from >= n {
        return None;
    }
    let ghost b = v@.subrange(from as int, n as int);
    let mut acc: u64 = 0;
    let mut over = false;
    let mut i = from;
    while i < n
        invariant
            from <= i <= n,
            n == v@.len(),
            b == v@.subrange(from as int, n as int),
            all_digits(v@.subrange(from as int, i as int)),
            !over ==> acc == digits_value(v@.subrange(from as int, i as int)) && acc <= max,
            over ==> digits_value(v@.subrange(from as int, i as int)) > max,
        decreases n - i,
    {
        let c = v[i];
        if !('0' <= c && c <= '9') {
            proof {
                assert(b[i - from] == c);
            }
            return None;
        }
        let d = (c as u32 - 48) as u64;
        proof {
            let p = v@.subrange(from as int, i as int);
            let q = v@.subrange(from as int, i + 1);
            assert(q.drop_last() == p);
            assert(q.last() == c);
            assert(all_digits(q));
            assert(digits_value(q) == digits_value(p) * 10 + d);
        }
        if !over {
            let nv: u128 = (acc as u128) * 10 + (d as u128);
            if nv > max as u128 {
                over = true;
            } else {
                acc = nv as u64;
            }
        } else {
            proof {
                let p = v@.subrange(from as int, i as int);
                assert(digits_value(p) * 10 + d > max) by (nonlinear_arith)
                    requires
                        digits_value(p) > max,
                ;
            }
        }
        i = i + 1;
    }
    if over {
        None
    } else {
        Some(acc)
    }
}

/// Parses an unsigned decimal integer of at most `max`, with an optional
/// leading `+` (the rules of `str::parse` for unsigned types).
pub fn parse_unsigned_chars(v: &Vec<char>, max: u64) -> (r: Option<u64>)
    ensures
        match r {
            Some(x) => parse_unsigned(v@, max as nat) == Some(x as nat),
            None => parse_unsigned(v@, max as nat) is None,
        },
{
    let from: usize = if v.len() > 0 && v[0] == '+' { 1 } else { 0 };
    proof {
        if from == 1 {
            assert(v@.subrange(1, v@.len() as int) == v@.drop_first());
        } else {
            assert(v@.subrange(0, v@.len() as int) == v@);
        }
    }
    digits_from(v, from, max)
}

/// Parses a signed decimal integer in `[min, max]` (the rules of
/// `str::parse` for signed types: optional `+` or `-`, then digits).
pub fn parse_signed_chars(v: &Vec<char>, min: i64, max: i64) -> (r: Option<i64>)
    requires
        min <= 0 <= max,
        min > i64::MIN,
    ensures
        match r {
            Some(x) => parse_signed(v@, min as int, max as int) == Some(x as int),
            None => parse_signed(v@, min as int, max as int) is None,
        },
{
    if v.len() > 0 && v[0] == '-' {
        assert(v@.subrange(1, v@.len() as int) == v@.drop_first());
        let m = digits_from(v, 1, (-min) as u64);
        match m {
            Some(x) => Some(-(x as i64)),
            None => None,
        }
    } else {
        let from: usize = if v.len() > 0 && v[0] == '+' { 1 } else { 0 };
        proof {
            if from == 1 {
                assert(v@.subrange(1, v@.len() as int) == v@.drop_first());
            } else {
                assert(v@.subrange(0, v@.len() as int) == v@);
            }
        }
        let m = digits_from(v, from, max as u64);
        match m {
            Some(x) => Some(x as i64),
            None => None,
        }
    }
}

} // verus!
