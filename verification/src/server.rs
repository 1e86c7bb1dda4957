//! Small rules of the HTTP server: the time-signature code kept by the live
//! player, the channel left out during a play-along recording, and the
//! default values of the request fields, and the names of files the server
//! agrees to read.
use vstd::prelude::*;
use crate::text::{chars_of, copy_range, owned, has_char, find_chars, occurs_at, contains_seq};
use crate::num::{parse_unsigned, parse_unsigned_chars};
use crate::render::{first_index_of, find_char};

verus! {

/// The two parts of a `top/bottom` signature, when it has exactly one `/`.
pub open spec fn sig_parts(s: Seq<char>) -> Option<(Seq<char>, Seq<char>)> {
    let k = first_index_of(s, '/');
    if k < 0 {
        None
    } else {
        let rest = s.subrange(k + 1, s.len() as int);
        if first_index_of(rest, '/') >= 0 { None } else { Some((s.subrange(0, k), rest)) }
    }
}

/// A part of the signature as a 16-bit number, 4 when it does not parse.
pub open spec fn sig_number(p: Seq<char>) -> nat {
    match parse_unsigned(p, 0xFFFF) {
        Some(v) => v,
        None => 4,
    }
}

/// `top * 10 + bottom` (44 for "4/4", 68 for "6/8"), 44 when the signature
/// is not made of exactly two parts; computed without bound.
pub open spec fn sig_value(s: Seq<char>) -> nat {
    match sig_parts(s) {
        Some((t, b)) => sig_number(t) * 10 + sig_number(b),
        None => 44,
    }
}


/// The time-signature code, or `None` when `top * 10 + bottom` does not fit
/// in 16 bits.
pub fn sig_code_checked(s: &str) -> (r: Option<u16>)
    ensures
        match r {
            Some(c) => sig_value(s@) <= 0xFFFF && c == sig_value(s@),
            None => sig_value(s@) > 0xFFFF,
        },
{
    let v = chars_of(s);
    let k = match find_char(&v, '/') {
        Some(k) => k,
        None => {
            return Some(44);
        },
    };
    let n: usize = v.len();
    let top = copy_range(&v, 0, k);
    let rest = copy_range(&v, k + 1, n);
    match find_char(&rest, '/') {
        Some(_) => {
            return Some(44);
        },
        None => {},
    }
    let t: u64 = match parse_unsigned_chars(&top, 0xFFFF) {
        Some(x) => x,
        None => 4,
    };
    let b: u64 = match parse_unsigned_chars(&rest, 0xFFFF) {
        Some(x) => x,
        None => 4,
    };
    let total = t * 10 + b;
    if total > 0xFFFF {
        return None;
    }
    Some(total as u16)
}

/// Time-signature code of a string such as "3/4" (34); 44 when the string
/// is not `top/bottom`; an unparsable part counts as 4.
pub fn sig_code(s: &str) -> (r: u16)
    requires
        sig_value(s@) <= 0xFFFF,
    ensures
        r == sig_value(s@),
{
    match sig_code_checked(s) {
        Some(c) => c,
        None => 44,
    }
}

/// A note on channel `c` plays unless `c` is the excluded channel.
pub open spec fn plays(c: u8, excluded: Option<u8>) -> bool {
    !(excluded matches Some(ch) && c == ch)
}

/// Positions of the notes kept when `excluded` names a channel left out of
/// playback (the one being recorded): every note of another channel.
pub open spec fn kept_positions(channels: Seq<u8>, excluded: Option<u8>) -> Seq<usize>
    decreases channels.len(),
{
    if channels.len() == 0 {
        Seq::empty()
    } else {
        let r = kept_positions(channels.drop_last(), excluded);
        match excluded {
            Some(ch) => if channels.last() == ch { r } else { r.push((channels.len() - 1) as usize) },
            None => r.push((channels.len() - 1) as usize),
        }
    }
}

/// The kept positions are increasing positions of notes off the excluded
/// channel, and every such note is kept.
pub proof fn kept_positions_exact(channels: Seq<u8>, excluded: Option<u8>)
    requires
        channels.len() <= usize::MAX,
    ensures
        forall|k: int| 0 <= k < kept_positions(channels, excluded).len() ==>
            #[trigger] kept_positions(channels, excluded)[k] < channels.len()
            && (excluded matches Some(ch) ==> channels[kept_positions(channels, excluded)[k] as int] != ch),
        forall|a: int, b: int| 0 <= a < b < kept_positions(channels, excluded).len() ==>
            kept_positions(channels, excluded)[a] < kept_positions(channels, excluded)[b],
        forall|j: int| 0 <= j < channels.len() && #[trigger] plays(channels[j], excluded) ==>
            kept_positions(channels, excluded).contains(j as usize),
    decreases channels.len(),
{
    if channels.len() > 0 {
        let d = channels.drop_last();
        kept_positions_exact(d, excluded);
        let r = kept_positions(d, excluded);
        let full = kept_positions(channels, excluded);
        let li = (channels.len() - 1) as usize;
        let keep_last = match excluded { Some(ch) => channels.last() != ch, None => true };
        if keep_last {
            assert(full == r.push(li));
        } else {
            assert(full == r);
        }
        assert forall|k: int| 0 <= k < full.len() implies
            #[trigger] full[k] < channels.len() && (excluded matches Some(ch) ==> channels[full[k] as int] != ch) by {
            if k < r.len() {
                assert(full[k] == r[k]);
                assert(channels[r[k] as int] == d[r[k] as int]);
            }
        }
        assert forall|a: int, b: int| 0 <= a < b < full.len() implies full[a] < full[b] by {
            if b < r.len() {
                assert(full[a] == r[a] && full[b] == r[b]);
            } else {
                assert(full[a] == r[a]);
                assert(r[a] < d.len());
            }
        }
        assert forall|j: int| 0 <= j < channels.len() && #[trigger] plays(channels[j], excluded) implies
            full.contains(j as usize) by {
            if j < channels.len() - 1 {
                assert(d[j] == channels[j]);
                assert(r.contains(j as usize));
                let w = choose|w: int| 0 <= w < r.len() && r[w] == j as usize;
                assert(full[w] == j as usize);
            } else {
                assert(full[full.len() - 1] == j as usize);
            }
        }
    }
}

/// The notes that still play during a play-along recording, given the
/// channel of each note: their positions, in order.
pub fn filter_excluded(channels: &[u8], excluded: Option<u8>) -> (r: Vec<usize>)
    ensures
        r@ == kept_positions(channels@, excluded),
        forall|k: int| 0 <= k < r@.len() ==> #[trigger] r@[k] < channels@.len()
            && (excluded matches Some(ch) ==> channels@[r@[k] as int] != ch),
        forall|j: int| 0 <= j < channels@.len() && #[trigger] plays(channels@[j], excluded) ==> r@.contains(j as usize),
{
    let _len: usize = channels.len();
    proof {
        kept_positions_exact(channels@, excluded);
    }
    let mut out: Vec<usize> = Vec::new();
    let mut i: usize = 0;
    while i < channels.len()
        invariant
            i <= channels@.len(),
            out@ == kept_positions(channels@.subrange(0, i as int), excluded),
        decreases channels@.len() - i,
    {
        proof {
            let s = channels@.subrange(0, i + 1);
            assert(s.drop_last() =~= channels@.subrange(0, i as int));
        }
        let keep = match excluded {
            Some(ch) => channels[i] != ch,
            None => true,
        };
        if keep {
            out.push(i);
        }
        i = i + 1;
    }
    assert(channels@.subrange(0, channels@.len() as int) =~= channels@);
    out
}

/// Default tempo of a request: 120 BPM.
pub fn t120() -> (r: u32)
    ensures
        r == 120,
{
    120
}

/// Default of the request switches that are on.
pub fn y() -> (r: bool)
    ensures
        r,
{
    true
}

/// Default of the request switches that are off.
pub fn n() -> (r: bool)
    ensures
        !r,
{
    false
}

/// Default drum pattern: "rock".
pub fn rk() -> (r: String)
    ensures
        r@ == "rock"@,
{
    owned("rock")
}

/// Default time signature: "4/4".
pub fn s44() -> (r: String)
    ensures
        r@ == "4/4"@,
{
    owned("4/4")
}

/// Default lead instrument: program 51 (Synth Strings 1).
pub fn i51() -> (r: u16)
    ensures
        r == 51,
{
    51
}

/// Default velocity of a single note: 100.
pub fn nv() -> (r: u8)
    ensures
        r == 100,
{
    100
}

/// Default duration of a single note: 400 ms.
pub fn nd() -> (r: u64)
    ensures
        r == 400,
{
    400
}

/// Default master volume: 127.
pub fn mv127() -> (r: u8)
    ensures
        r == 127,
{
    127
}

/// Characters of a rendered file's name: ASCII letters and digits, `.`,
/// `_` and `-`.
pub open spec fn rendered_char(c: char) -> bool {
    ('a' <= c <= 'z') || ('A' <= c <= 'Z') || ('0' <= c <= '9') || c == '.' || c == '_' || c == '-'
}

/// A rendered file may be served: its name is not empty and made of the
/// allowed characters only (no path separator).
pub fn rendered_name_ok(name: &str) -> (r: bool)
    ensures
        r == (name@.len() > 0 && forall|k: int| 0 <= k < name@.len() ==> rendered_char(#[trigger] name@[k])),
{
    let v = chars_of(name);
    if v.len() == 0 {
        return false;
    }
    let mut i: usize = 0;
    while i < v.len()
        invariant
            i <= v@.len(),
            v@ == name@,
            forall|k: int| 0 <= k < i ==> rendered_char(#[trigger] v@[k]),
        decreases v@.len() - i,
    {
        let c = v[i];
        if !(('a' <= c && c <= 'z') || ('A' <= c && c <= 'Z') || ('0' <= c && c <= '9') || c == '.' || c == '_' || c == '-') {
            return false;
        }
        i = i + 1;
    }
    true
}

/// A plain file name cannot leave its folder: no `/`, no `\`, no `..`.
pub open spec fn plain_name(name: Seq<char>) -> bool {
    !name.contains('/') && !name.contains('\\') && !contains_seq(name, seq!['.', '.'])
}

/// Whether a name taken from a URL is a plain file name.
pub fn is_plain_name(name: &str) -> (r: bool)
    ensures
        r == plain_name(name@),
{
    let v = chars_of(name);
    if has_char(&v, '/') || has_char(&v, '\\') {
        return false;
    }
    let dots: Vec<char> = vec!['.', '.'];
    let found = find_chars(&v, &dots);
    assert(dots@ =~= seq!['.', '.']);
    match found {
        Some(_) => false,
        None => true,
    }
}

} // verus!
