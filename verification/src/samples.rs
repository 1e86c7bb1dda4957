//! Drum loop files are named `<name>_<tempo>.wav` (such as `snap5_160.wav`):
//! the listing groups them by tempo.
use vstd::prelude::*;
use crate::num::{parse_unsigned, parse_unsigned_chars};
use crate::text::{chars_of, copy_range, string_from_chars};

verus! {

/// Index of the last `c` in `s`, or -1.
pub open spec fn last_index_of(s: Seq<char>, c: char) -> int
    decreases s.len(),
{
    if s.len() == 0 {
        -1
    } else if s.last() == c {
        s.len() - 1
    } else {
        last_index_of(s.drop_last(), c)
    }
}

proof fn lemma_last_index_bounds(s: Seq<char>, c: char)
    ensures
        -1 <= last_index_of(s, c) < s.len(),
        last_index_of(s, c) >= 0 ==> s[last_index_of(s, c)] == c,
    decreases s.len(),
{
    if s.len() > 0 && s.last() != c {
        lemma_last_index_bounds(s.drop_last(), c);
    }
}

/// Name and tempo of a loop file stem: the part before the last `_`, and
/// the part after it read as a 16-bit unsigned number (`str::parse::<u16>`);
/// none without `_` or when the tempo does not parse.
pub open spec fn spec_sample_key(stem: Seq<char>) -> Option<(Seq<char>, u16)> {
    let k = last_index_of(stem, '_');
    if k < 0 {
        None
    } else {
        match parse_unsigned(stem.subrange(k + 1, stem.len() as int), 0xFFFF) {
            Some(t) => Some((stem.subrange(0, k), t as u16)),
            None => None,
        }
    }
}

/// Splits a loop file stem into its name and its tempo.
pub fn sample_key(stem: &str) -> (r: Option<(String, u16)>)
    ensures
        match r {
            Some((name, tempo)) => spec_sample_key(stem@) == Some((name@, tempo)),
            None => spec_sample_key(stem@) is None,
        },
{
    let v = chars_of(stem);
    let mut i: usize = v.len();
    assert(v@.subrange(0, v@.len() as int) == v@);
    while i > 0
        invariant
            i <= v@.len(),
            v@ == stem@,
            last_index_of(v@, '_') == last_index_of(v@.subrange(0, i as int), '_'),
        ensures
            i <= v@.len(),
            v@ == stem@,
            last_index_of(v@, '_') == last_index_of(v@.subrange(0, i as int), '_'),
            i > 0 ==> v@[i - 1] == '_',
        decreases i,
    {
        if v[i - 1] == '_' {
            break;
        }
        assert(v@.subrange(0, i as int).drop_last() == v@.subrange(0, i - 1));
        i = i - 1;
    }
    if i == 0 {
        return None;
    }
    let k = i - 1;
    proof {
        assert(v@.subrange(0, i as int).last() == '_');
        lemma_last_index_bounds(v@, '_');
    }
    let rest = copy_range(&v, k + 1, v.len());
    match parse_unsigned_chars(&rest, 0xFFFF) {
        Some(t) => {
            let name_chars = copy_range(&v, 0, k);
            let name = string_from_chars(name_chars.as_slice());
            Some((name, t as u16))
        },
        None => None,
    }
}

} // verus!
