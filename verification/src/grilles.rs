//! Saved chord grids: the file name a grid is stored under, and the UTC
//! timestamp written into a grid that has none.
use vstd::prelude::*;
use crate::text::{chars_of, has_char, string_from_chars, owned, is_alphanumeric, char_is_alphanumeric,
    push_char, push_decimal_padded, padded_decimal};

verus! {

/// The class of `char::is_alphanumeric`: on ASCII, the letters and the
/// digits.
pub open spec fn alnum_char(c: char) -> bool {
    if (c as u32) < 128 {
        ('a' <= c <= 'z') || ('A' <= c <= 'Z') || ('0' <= c <= '9')
    } else {
        char_is_alphanumeric(c)
    }
}

/// A character that may stay in a file name: the class of
/// `char::is_alphanumeric`, `_` or `-`; any other becomes `_`.
pub open spec fn clean_char(c: char) -> char {
    if alnum_char(c) || c == '_' || c == '-' { c } else { '_' }
}

/// Runs of `_` reduced to one `_`.
pub open spec fn collapse_underscores(s: Seq<char>) -> Seq<char>
    decreases s.len(),
{
    if s.len() == 0 {
        s
    } else {
        let r = collapse_underscores(s.drop_last());
        if s.last() == '_' && r.len() > 0 && r.last() == '_' { r } else { r.push(s.last()) }
    }
}

/// Leading `_` removed.
pub open spec fn strip_front(s: Seq<char>) -> Seq<char>
    decreases s.len(),
{
    if s.len() > 0 && s[0] == '_' { strip_front(s.drop_first()) } else { s }
}

/// Trailing `_` removed.
pub open spec fn strip_back(s: Seq<char>) -> Seq<char>
    decreases s.len(),
{
    if s.len() > 0 && s.last() == '_' { strip_back(s.drop_last()) } else { s }
}

/// The file name of a grid: each character cleaned, runs of `_` reduced,
/// `_` trimmed at both ends; `grille` when nothing is left.
pub open spec fn spec_sanitize_name(name: Seq<char>) -> Seq<char> {
    let t = strip_back(strip_front(collapse_underscores(name.map_values(|c: char| clean_char(c)))));
    if t.len() == 0 { "grille"@ } else { t }
}

/// Characters a sanitized name is made of: ASCII letters, digits, `_`, `-`,
/// or non-ASCII characters of the alphanumeric class.
pub open spec fn name_char(c: char) -> bool {
    if (c as u32) < 128 {
        ('a' <= c <= 'z') || ('A' <= c <= 'Z') || ('0' <= c <= '9') || c == '_' || c == '-'
    } else {
        char_is_alphanumeric(c)
    }
}

proof fn lemma_strip_front(s: Seq<char>, i: int)
    requires
        0 <= i <= s.len(),
        forall|k: int| 0 <= k < i ==> s[k] == '_',
        i == s.len() || s[i] != '_',
    ensures
        strip_front(s) == s.subrange(i, s.len() as int),
    decreases i,
{
    if i > 0 {
        lemma_strip_front(s.drop_first(), i - 1);
        assert(s.drop_first().subrange(i - 1, s.len() - 1) =~= s.subrange(i, s.len() as int));
    } else {
        assert(s.subrange(0, s.len() as int) =~= s);
    }
}

proof fn lemma_strip_back(s: Seq<char>, j: int)
    requires
        0 <= j <= s.len(),
        forall|k: int| j <= k < s.len() ==> s[k] == '_',
        j == 0 || s[j - 1] != '_',
    ensures
        strip_back(s) == s.subrange(0, j),
    decreases s.len() - j,
{
    if j < s.len() {
        lemma_strip_back(s.drop_last(), j);
        assert(s.drop_last().subrange(0, j) =~= s.subrange(0, j));
    } else {
        assert(s.subrange(0, s.len() as int) =~= s);
    }
}

/// No two `_` follow each other.
pub open spec fn no_double_underscore(s: Seq<char>) -> bool {
    forall|k: int| 0 <= k && k + 1 < s.len() ==> !(#[trigger] s[k] == '_' && s[k + 1] == '_')
}

/// Every character is left as it is by the cleaning.
pub open spec fn all_clean(s: Seq<char>) -> bool {
    forall|k: int| 0 <= k < s.len() ==> clean_char(#[trigger] s[k]) == s[k]
}

proof fn lemma_collapse_elems(s: Seq<char>)
    ensures
        forall|k: int| 0 <= k < collapse_underscores(s).len() ==> s.contains(#[trigger] collapse_underscores(s)[k]),
        no_double_underscore(collapse_underscores(s)),
    decreases s.len(),
{
    if s.len() > 0 {
        let d = s.drop_last();
        lemma_collapse_elems(d);
        let r = collapse_underscores(d);
        assert forall|k: int| 0 <= k < collapse_underscores(s).len() implies s.contains(#[trigger] collapse_underscores(s)[k]) by {
            if k < r.len() {
                assert(collapse_underscores(s)[k] == r[k]);
                assert(d.contains(r[k]));
                let j = choose|j: int| 0 <= j < d.len() && d[j] == r[k];
                assert(s[j] == r[k]);
            } else {
                assert(collapse_underscores(s)[k] == s.last());
                assert(s[s.len() - 1] == s.last());
            }
        }
    }
}

proof fn lemma_collapse_of_single(s: Seq<char>)
    requires
        no_double_underscore(s),
    ensures
        collapse_underscores(s) == s,
    decreases s.len(),
{
    if s.len() > 0 {
        let d = s.drop_last();
        assert(no_double_underscore(d)) by {
            assert forall|k: int| 0 <= k && k + 1 < d.len() implies !(#[trigger] d[k] == '_' && d[k + 1] == '_') by {
                assert(d[k] == s[k] && d[k + 1] == s[k + 1]);
            }
        }
        lemma_collapse_of_single(d);
        if s.len() >= 2 {
            assert(!(s[s.len() - 2] == '_' && s[s.len() - 1] == '_'));
        }
        assert(d.push(s.last()) =~= s);
    }
}

proof fn lemma_strip_front_props(s: Seq<char>)
    ensures
        strip_front(s).len() > 0 ==> strip_front(s)[0] != '_',
        strip_front(s).len() <= s.len(),
        forall|k: int| 0 <= k < strip_front(s).len() ==> #[trigger] strip_front(s)[k] == s[k + s.len() - strip_front(s).len()],
    decreases s.len(),
{
    if s.len() > 0 && s[0] == '_' {
        lemma_strip_front_props(s.drop_first());
    }
}

proof fn lemma_strip_back_props(s: Seq<char>)
    ensures
        strip_back(s).len() > 0 ==> strip_back(s).last() != '_',
        strip_back(s).len() <= s.len(),
        forall|k: int| 0 <= k < strip_back(s).len() ==> #[trigger] strip_back(s)[k] == s[k],
    decreases s.len(),
{
    if s.len() > 0 && s.last() == '_' {
        lemma_strip_back_props(s.drop_last());
    }
}

proof fn lemma_sanitized_parts(name: Seq<char>)
    ensures
        ({
            let t = strip_back(strip_front(collapse_underscores(name.map_values(|c: char| clean_char(c)))));
            &&& t.len() > 0 ==> t[0] != '_' && t.last() != '_'
            &&& no_double_underscore(t)
            &&& all_clean(t)
        }),
{
    let m = name.map_values(|c: char| clean_char(c));
    let col = collapse_underscores(m);
    let f = strip_front(col);
    let t = strip_back(f);
    lemma_collapse_elems(m);
    lemma_strip_front_props(col);
    lemma_strip_back_props(f);
    assert forall|k: int| 0 <= k < t.len() implies clean_char(#[trigger] t[k]) == t[k] by {
        let i = k + col.len() - f.len();
        assert(t[k] == f[k]);
        assert(f[k] == col[i]);
        assert(m.contains(col[i]));
        let j = choose|j: int| 0 <= j < m.len() && m[j] == col[i];
        assert(m[j] == clean_char(name[j]));
    }
    assert forall|k: int| 0 <= k && k + 1 < t.len() implies !(#[trigger] t[k] == '_' && t[k + 1] == '_') by {
        let i = k + col.len() - f.len();
        assert(t[k] == f[k] && t[k + 1] == f[k + 1]);
        assert(f[k] == col[i] && f[k + 1] == col[i + 1]);
    }
    if t.len() > 0 {
        assert(t[0] == f[0]);
    }
}

/// A sanitized name is never empty, neither starts nor ends with `_`, and
/// holds no two `_` in a row.
pub proof fn sanitized_name_shape(name: Seq<char>)
    ensures
        spec_sanitize_name(name).len() > 0,
        spec_sanitize_name(name)[0] != '_',
        spec_sanitize_name(name).last() != '_',
        no_double_underscore(spec_sanitize_name(name)),
{
    lemma_sanitized_parts(name);
    reveal_strlit("grille");
}

/// Sanitizing a sanitized name gives it back unchanged.
pub proof fn sanitize_name_idempotent(name: Seq<char>)
    ensures
        spec_sanitize_name(spec_sanitize_name(name)) == spec_sanitize_name(name),
{
    let r = spec_sanitize_name(name);
    lemma_sanitized_parts(name);
    reveal_strlit("grille");
    sanitized_name_shape(name);
    assert(all_clean(r));
    let m = r.map_values(|c: char| clean_char(c));
    assert(m =~= r);
    lemma_collapse_of_single(r);
    assert(strip_front(r) == r);
    assert(strip_back(r) == r);
}

/// A name without any letter, digit or `-` is saved as `grille`.
pub proof fn sanitize_name_default(name: Seq<char>)
    requires
        forall|k: int| 0 <= k < name.len() ==> !alnum_char(#[trigger] name[k]) && name[k] != '-',
    ensures
        spec_sanitize_name(name) == "grille"@,
{
    let m = name.map_values(|c: char| clean_char(c));
    let col = collapse_underscores(m);
    lemma_collapse_elems(m);
    assert forall|k: int| 0 <= k < col.len() implies #[trigger] col[k] == '_' by {
        assert(m.contains(col[k]));
        let j = choose|j: int| 0 <= j < m.len() && m[j] == col[k];
        assert(m[j] == clean_char(name[j]));
    }
    lemma_strip_front_props(col);
    let f = strip_front(col);
    if f.len() > 0 {
        assert(f[0] == col[col.len() - f.len()]);
    }
    assert(f.len() == 0);
    assert(strip_back(f) == f);
}

/// Turns a grid name into a safe file name (no path separator, no dot).
pub fn sanitize_name(name: &str) -> (r: String)
    ensures
        r@ == spec_sanitize_name(name@),
        forall|k: int| 0 <= k < r@.len() ==> name_char(#[trigger] r@[k]),
{
    let src = chars_of(name);
    let ghost cleaned = name@.map_values(|c: char| clean_char(c));
    // Cleaning and collapsing in one pass.
    let mut out: Vec<char> = Vec::new();
    let mut prev_underscore = false;
    let mut i: usize = 0;
    while i < src.len()
        invariant
            src@ == name@,
            cleaned == name@.map_values(|c: char| clean_char(c)),
            i <= src@.len(),
            out@ == collapse_underscores(cleaned.subrange(0, i as int)),
            prev_underscore == (out@.len() > 0 && out@.last() == '_'),
            forall|k: int| 0 <= k < out@.len() ==> name_char(#[trigger] out@[k]),
        decreases src@.len() - i,
    {
        let c0 = src[i];
        let alnum = is_alphanumeric(c0);
        let c = if alnum || c0 == '_' || c0 == '-' { c0 } else { '_' };
        proof {
            let s = cleaned.subrange(0, i + 1);
            assert(s.drop_last() =~= cleaned.subrange(0, i as int));
            assert(s.last() == c);
        }
        if c == '_' {
            if !prev_underscore {
                out.push(c);
            }
            prev_underscore = true;
        } else {
            out.push(c);
            prev_underscore = false;
        }
        i = i + 1;
    }
    assert(cleaned.subrange(0, src@.len() as int) =~= cleaned);
    let ghost collapsed = out@;
    // Trim the underscores at both ends.
    let mut a: usize = 0;
    while a < out.len() && out[a] == '_'
        invariant
            a <= out@.len(),
            forall|k: int| 0 <= k < a ==> out@[k] == '_',
        decreases out@.len() - a,
    {
        a = a + 1;
    }
    proof {
        lemma_strip_front(collapsed, a as int);
    }
    let mut b: usize = out.len();
    while b > a && out[b - 1] == '_'
        invariant
            a <= b <= out@.len(),
            forall|k: int| b <= k < out@.len() ==> out@[k] == '_',
        decreases b,
    {
        b = b - 1;
    }
    let ghost front = collapsed.subrange(a as int, collapsed.len() as int);
    proof {
        lemma_strip_back(front, b - a);
        assert(front.subrange(0, b - a) =~= collapsed.subrange(a as int, b as int));
    }
    if a == b {
        proof {
            reveal_strlit("grille");
        }
        let g = owned("grille");
        return g;
    }
    let mut t: Vec<char> = Vec::new();
    let mut k: usize = a;
    while k < b
        invariant
            a <= k <= b <= out@.len(),
            t@ == out@.subrange(a as int, k as int),
        decreases b - k,
    {
        t.push(out[k]);
        proof {
            assert(out@.subrange(a as int, k + 1) =~= out@.subrange(a as int, k as int).push(out@[k as int]));
        }
        k = k + 1;
    }
    string_from_chars(t.as_slice())
}

/// Whether a character sequence contains `c`.

/// Whether two consecutive dots occur.
fn has_double_dot(v: &Vec<char>) -> (r: bool)
    ensures
        r == exists|k: int| 0 <= k && k + 1 < v@.len() && v@[k] == '.' && #[trigger] v@[k + 1] == '.',
{
    let mut i: usize = 0;
    while i < v.len() && i + 1 < v.len()
        invariant
            i <= v@.len(),
            forall|k: int| 0 <= k < i && k + 1 < v@.len() ==> !(v@[k] == '.' && #[trigger] v@[k + 1] == '.'),
        decreases v@.len() - i,
    {
        if v[i] == '.' && v[i + 1] == '.' {
            return true;
        }
        i = i + 1;
    }
    false
}

/// The name of a grid taken from a URL path: sanitized, then refused when
/// it would still hold `/`, `\` or `..`. A sanitized name never does, so
/// the result is always the sanitized name.
pub fn secure_path_name(name: &str) -> (r: Option<String>)
    ensures
        r is Some,
        r->0@ == spec_sanitize_name(name@),
{
    let safe = sanitize_name(name);
    let v = chars_of(safe.as_str());
    let slash = has_char(&v, '/');
    let back = has_char(&v, '\\');
    let dots = has_double_dot(&v);
    proof {
        if slash {
            let k = choose|k: int| 0 <= k < v@.len() && v@[k] == '/';
            assert(name_char(v@[k]));
        }
        if back {
            let k = choose|k: int| 0 <= k < v@.len() && v@[k] == '\\';
            assert(name_char(v@[k]));
        }
        if dots {
            let k = choose|k: int| 0 <= k && k + 1 < v@.len() && v@[k] == '.' && #[trigger] v@[k + 1] == '.';
            assert(name_char(v@[k]));
        }
    }
    if slash || back || dots {
        return None;
    }
    Some(safe)
}

/// Civil date (proleptic Gregorian) of a day count from 1970-01-01, by the
/// era / day-of-era decomposition: (year, month 1-12, day 1-31).
pub open spec fn spec_civil_from_days(z: int) -> (int, int, int) {
    let zz = z + 719468;
    let era = zz / 146097;
    let doe = zz - era * 146097;
    let yoe = (doe - doe / 1460 + doe / 36524 - doe / 146096) / 365;
    let y = yoe + era * 400;
    let doy = doe - (365 * yoe + yoe / 4 - yoe / 100);
    let mp = (5 * doy + 2) / 153;
    let d = doy - (153 * mp + 2) / 5 + 1;
    let m = if mp < 10 { mp + 3 } else { mp - 9 };
    (if m <= 2 { y + 1 } else { y }, m, d)
}

proof fn lemma_civil_ranges(doe: int)
    requires
        0 <= doe < 146097,
    ensures
        ({
            let yoe = (doe - doe / 1460 + doe / 36524 - doe / 146096) / 365;
            let doy = doe - (365 * yoe + yoe / 4 - yoe / 100);
            let mp = (5 * doy + 2) / 153;
            &&& 0 <= yoe <= 399
            &&& 0 <= doy <= 365
            &&& 0 <= mp <= 11
            &&& 1 <= doy - (153 * mp + 2) / 5 + 1 <= 31
        }),
{
    let a = doe / 1460;
    let b = doe / 36524;
    let c = doe / 146096;
    assert(0 <= a <= 100) by (nonlinear_arith) requires 0 <= doe < 146097, a == doe / 1460;
    assert(0 <= b <= 4) by (nonlinear_arith) requires 0 <= doe < 146097, b == doe / 36524;
    assert(0 <= c <= 1) by (nonlinear_arith) requires 0 <= doe < 146097, c == doe / 146096;
    let n = doe - a + b - c;
    let yoe = n / 365;
    assert(0 <= n < 146000 + 365) by (nonlinear_arith)
        requires 0 <= doe < 146097, a == doe / 1460, b == doe / 36524, c == doe / 146096, n == doe - a + b - c;
    assert(0 <= yoe <= 399 + 1) by (nonlinear_arith) requires 0 <= n < 146365, yoe == n / 365;
    // The leap-year corrections keep the day of the year within 0..=365.
    let doy = doe - (365 * yoe + yoe / 4 - yoe / 100);
    assert(0 <= yoe <= 399 && 0 <= doy <= 365) by (nonlinear_arith)
        requires
            0 <= doe < 146097,
            a == doe / 1460,
            b == doe / 36524,
            c == doe / 146096,
            n == doe - a + b - c,
            yoe == n / 365,
            doy == doe - (365 * yoe + yoe / 4 - yoe / 100);
    let mp = (5 * doy + 2) / 153;
    assert(0 <= mp <= 11) by (nonlinear_arith) requires 0 <= doy <= 365, mp == (5 * doy + 2) / 153;
    assert(1 <= doy - (153 * mp + 2) / 5 + 1 <= 31) by (nonlinear_arith)
        requires 0 <= doy <= 365, mp == (5 * doy + 2) / 153, 0 <= mp <= 11;
}

/// Year, month and day of a day count since 1970-01-01; the month lies in
/// 1..=12 and the day in 1..=31.
pub fn civil_from_days(z: i64) -> (r: (i64, u32, u32))
    requires
        z <= i64::MAX - 719468,
    ensures
        (r.0 as int, r.1 as int, r.2 as int) == spec_civil_from_days(z as int),
        1 <= r.1 <= 12,
        1 <= r.2 <= 31,
{
    let zz = z + 719468;
    let era: i64 = if zz >= 0 { zz } else { zz - 146096 } / 146097;
    assert(era == zz as int / 146097) by (nonlinear_arith)
        requires
            zz >= 0 ==> era == zz / 146097,
            zz < 0 ==> era == -((146096 - zz) / 146097),
    {
        if zz < 0 {
            let q = zz as int / 146097;
            let r = zz as int % 146097;
            assert(zz == q * 146097 + r && 0 <= r < 146097);
        }
    };
    let doe_i = zz - era * 146097;
    assert(0 <= doe_i < 146097) by (nonlinear_arith) requires era == zz as int / 146097, doe_i == zz - era * 146097;
    let doe = doe_i as u64;
    proof {
        lemma_civil_ranges(doe as int);
    }
    let yoe = (doe - doe / 1460 + doe / 36524 - doe / 146096) / 365;
    assert(era * 400 <= i64::MAX - 400 && era * 400 >= i64::MIN + 400) by (nonlinear_arith)
        requires era == zz as int / 146097, zz <= i64::MAX, zz >= i64::MIN + 719468;
    let y = yoe as i64 + era * 400;
    let doy = doe - (365 * yoe + yoe / 4 - yoe / 100);
    let mp = (5 * doy + 2) / 153;
    let d = (doy - (153 * mp + 2) / 5 + 1) as u32;
    let m = if mp < 10 { mp + 3 } else { mp - 9 } as u32;
    (if m <= 2 { y + 1 } else { y }, m, d)
}

/// `YYYY-MM-DDThh:mm:ssZ` for a count of seconds since the Unix epoch (UTC).
pub open spec fn spec_iso_from_secs(secs: nat) -> Seq<char> {
    let (y, m, d) = spec_civil_from_days((secs / 86400) as int);
    padded_decimal(y as nat, 4) + seq!['-'] + padded_decimal(m as nat, 2) + seq!['-']
        + padded_decimal(d as nat, 2) + seq!['T'] + padded_decimal((secs / 3600) % 24, 2)
        + seq![':'] + padded_decimal((secs / 60) % 60, 2) + seq![':']
        + padded_decimal(secs % 60, 2) + seq!['Z']
}

/// ISO-8601 UTC timestamp of a Unix time in seconds.
pub fn iso_from_secs(secs: u64) -> (r: String)
    ensures
        r@ == spec_iso_from_secs(secs as nat),
{
    let days = secs / 86400;
    let (y, m, d) = civil_from_days(days as i64);
    proof {
        let zz = days as int + 719468;
        assert(zz / 146097 >= 0) by (nonlinear_arith) requires zz >= 0;
        let era = zz / 146097;
        let doe = zz - era * 146097;
        assert(0 <= doe < 146097) by (nonlinear_arith) requires zz >= 0, era == zz / 146097, doe == zz - era * 146097;
        lemma_civil_ranges(doe);
    }
    let mut s = String::new();
    push_decimal_padded(&mut s, y as u64, 4);
    push_char(&mut s, '-');
    push_decimal_padded(&mut s, m as u64, 2);
    push_char(&mut s, '-');
    push_decimal_padded(&mut s, d as u64, 2);
    push_char(&mut s, 'T');
    push_decimal_padded(&mut s, (secs / 3600) % 24, 2);
    push_char(&mut s, ':');
    push_decimal_padded(&mut s, (secs / 60) % 60, 2);
    push_char(&mut s, ':');
    push_decimal_padded(&mut s, secs % 60, 2);
    push_char(&mut s, 'Z');
    s
}

/// Seconds since the Unix epoch from `SystemTime::now` (0 when the clock is
/// before the epoch). It depends on the clock, so nothing is stated of it.
#[verifier::external_body]
fn unix_now_secs() -> u64 {
    match std::time::SystemTime::now().duration_since(std::time::UNIX_EPOCH) {
        Ok(d) => d.as_secs(),
        Err(_) => 0,
    }
}

/// ISO-8601 UTC timestamp of the current time.
pub fn iso_now() -> (r: String)
    ensures
        exists|secs: nat| r@ == spec_iso_from_secs(secs),
{
    let secs = unix_now_secs();
    let r = iso_from_secs(secs);
    assert(r@ == spec_iso_from_secs(secs as nat));
    r
}

} // verus!
