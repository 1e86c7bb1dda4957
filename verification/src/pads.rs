//! Sample bank of the 64 pads: which files may be stored and served, the
//! file name given to an upload, its content type, and the arguments of the
//! server-side player.
use vstd::prelude::*;
use crate::text::{chars_of, has_char, string_from_chars, owned, push_char, push_decimal, digit_char, decimal,
    to_lowercase, str_lowercase, chars_eq, occurs_at, contains_seq, find_chars};

verus! {

/// Largest accepted upload (25 MiB).
pub const MAX_UPLOAD_BYTES: usize = 25 * 1024 * 1024;

/// Audio extensions accepted for a pad sample.
pub const ALLOWED_EXTS: [&'static str; 6] = ["wav", "mp3", "ogg", "flac", "m4a", "aiff"];

/// One of the accepted extensions (already lowercased).
pub open spec fn allowed_ext(e: Seq<char>) -> bool {
    ||| e == "wav"@
    ||| e == "mp3"@
    ||| e == "ogg"@
    ||| e == "flac"@
    ||| e == "m4a"@
    ||| e == "aiff"@
}

/// A pad sample in the listing: file name, size in bytes, lowercased extension.
#[derive(Clone, Debug)]
pub struct PadInfo {
    pub name: String,
    pub size: u64,
    pub ext: String,
}

/// Why a server-side playback could not start.
#[derive(Debug, PartialEq, Eq)]
pub enum PadPlayError {
    /// Invalid file name (traversal, wrong prefix...).
    BadName,
    /// The file is not on the server.
    NotFound,
    /// The player could not be started.
    Spawn(String),
}

fn is_word(w: &Vec<char>, lit: &str) -> (r: bool)
    ensures
        r == (w@ == lit@),
{
    let l = chars_of(lit);
    chars_eq(w, &l)
}

/// Whether a lowercased extension is accepted.
pub fn is_allowed_ext(ext: &str) -> (r: bool)
    ensures
        r == allowed_ext(ext@),
{
    let v = chars_of(ext);
    is_word(&v, "wav") || is_word(&v, "mp3") || is_word(&v, "ogg") || is_word(&v, "flac")
        || is_word(&v, "m4a") || is_word(&v, "aiff")
}

/// A stored sample may be served: not empty, no `/`, `\` or `..`, and it
/// starts with `pad_`.
pub open spec fn valid_pad_name(name: Seq<char>) -> bool {
    &&& name.len() > 0
    &&& !name.contains('/')
    &&& !name.contains('\\')
    &&& !contains_seq(name, seq!['.', '.'])
    &&& name.len() >= 4 && name.subrange(0, 4) == seq!['p', 'a', 'd', '_']
}

/// `dir` joined with a relative file name (`Path::join`): a `/` is put in
/// between unless `dir` is empty or already ends with one.
pub open spec fn join_path(dir: Seq<char>, name: Seq<char>) -> Seq<char> {
    if dir.len() == 0 {
        name
    } else if dir.last() == '/' {
        dir + name
    } else {
        dir + seq!['/'] + name
    }
}


/// Path of a stored sample in the pads directory `dir`; `None` for any name
/// that could leave the directory or is not a pad sample.
pub fn path_for(dir: &str, name: &str) -> (r: Option<String>)
    ensures
        match r {
            Some(p) => valid_pad_name(name@) && p@ == join_path(dir@, name@),
            None => !valid_pad_name(name@),
        },
{
    let v = chars_of(name);
    if v.len() == 0 || has_char(&v, '/') || has_char(&v, '\\') {
        return None;
    }
    let dots: Vec<char> = vec!['.', '.'];
    match find_chars(&v, &dots) {
        Some(_) => {
            assert(dots@ =~= seq!['.', '.']);
            return None;
        },
        None => {
            assert(dots@ =~= seq!['.', '.']);
        },
    }
    if v.len() < 4 || !(v[0] == 'p' && v[1] == 'a' && v[2] == 'd' && v[3] == '_') {
        proof {
            if v@.len() >= 4 && v@.subrange(0, 4) == seq!['p', 'a', 'd', '_'] {
                assert(v@.subrange(0, 4)[0] == 'p');
                assert(v@.subrange(0, 4)[1] == 'a');
                assert(v@.subrange(0, 4)[2] == 'd');
                assert(v@.subrange(0, 4)[3] == '_');
            }
        }
        return None;
    }
    assert(v@.subrange(0, 4) =~= seq!['p', 'a', 'd', '_']);
    let d = chars_of(dir);
    let mut out: Vec<char> = Vec::new();
    let mut i: usize = 0;
    while i < d.len()
        invariant
            i <= d@.len(),
            out@ == d@.subrange(0, i as int),
        decreases d@.len() - i,
    {
        out.push(d[i]);
        proof {
            assert(d@.subrange(0, i + 1) =~= d@.subrange(0, i as int).push(d@[i as int]));
        }
        i = i + 1;
    }
    assert(d@.subrange(0, d@.len() as int) =~= d@);
    if d.len() > 0 && d[d.len() - 1] != '/' {
        out.push('/');
    }
    let ghost head = out@;
    let mut k: usize = 0;
    while k < v.len()
        invariant
            k <= v@.len(),
            out@ == head + v@.subrange(0, k as int),
        decreases v@.len() - k,
    {
        out.push(v[k]);
        proof {
            assert(v@.subrange(0, k + 1) =~= v@.subrange(0, k as int).push(v@[k as int]));
        }
        k = k + 1;
    }
    assert(v@.subrange(0, v@.len() as int) =~= v@);
    proof {
        if d@.len() == 0 {
            assert(out@ =~= join_path(dir@, name@));
        } else if d@.last() == '/' {
            assert(out@ =~= join_path(dir@, name@));
        } else {
            assert(out@ =~= join_path(dir@, name@));
        }
    }
    Some(string_from_chars(out.as_slice()))
}

/// Content type of a lowercased extension.
pub open spec fn spec_content_type_lower(e: Seq<char>) -> Seq<char> {
    if e == "wav"@ {
        "audio/wav"@
    } else if e == "mp3"@ {
        "audio/mpeg"@
    } else if e == "ogg"@ {
        "audio/ogg"@
    } else if e == "flac"@ {
        "audio/flac"@
    } else if e == "m4a"@ {
        "audio/mp4"@
    } else if e == "aiff"@ {
        "audio/aiff"@
    } else {
        "application/octet-stream"@
    }
}

/// HTTP content type of a sample, from its extension in any case.
pub fn content_type(ext: &str) -> (r: &'static str)
    ensures
        r@ == spec_content_type_lower(str_lowercase(ext@)),
{
    let lower = to_lowercase(ext);
    let v = chars_of(lower.as_str());
    if is_word(&v, "wav") {
        "audio/wav"
    } else if is_word(&v, "mp3") {
        "audio/mpeg"
    } else if is_word(&v, "ogg") {
        "audio/ogg"
    } else if is_word(&v, "flac") {
        "audio/flac"
    } else if is_word(&v, "m4a") {
        "audio/mp4"
    } else if is_word(&v, "aiff") {
        "audio/aiff"
    } else {
        "application/octet-stream"
    }
}

/// Arguments of `ffplay`: no window, exit at the end, quiet, and the volume
/// capped at 100.
pub open spec fn spec_ffplay_args(volume: u8) -> Seq<Seq<char>> {
    seq!["-nodisp"@, "-autoexit"@, "-loglevel"@, "quiet"@, "-volume"@,
        decimal(if volume > 100 { 100nat } else { volume as nat })]
}

/// The character views of a list of strings.
pub open spec fn strings_view(v: Seq<String>) -> Seq<Seq<char>> {
    v.map_values(|s: String| s@)
}

/// Player arguments for a pad played by the server.
pub fn ffplay_args(volume: u8) -> (r: Vec<String>)
    ensures
        strings_view(r@) == spec_ffplay_args(volume),
{
    let mut vol = String::new();
    push_decimal(&mut vol, if volume > 100 { 100u64 } else { volume as u64 });
    let r = vec![owned("-nodisp"), owned("-autoexit"), owned("-loglevel"), owned("quiet"), owned("-volume"), vol];
    assert(strings_view(r@) =~= spec_ffplay_args(volume));
    r
}

/// Arguments of the player for a pad sample at `path`: the player options,
/// `-loop 0` when the sample repeats until stopped, then the file.
pub open spec fn spec_pad_player_args(volume: u8, looping: bool, path: Seq<char>) -> Seq<Seq<char>> {
    spec_ffplay_args(volume) + (if looping { seq!["-loop"@, "0"@] } else { Seq::empty() }) + seq![path]
}

/// Player arguments for a pad sample, looping or played once.
pub fn pad_player_args(volume: u8, looping: bool, path: &str) -> (r: Vec<String>)
    ensures
        strings_view(r@) == spec_pad_player_args(volume, looping, path@),
{
    let mut r = ffplay_args(volume);
    if looping {
        r.push(owned("-loop"));
        r.push(owned("0"));
    }
    r.push(owned(path));
    assert(strings_view(r@) =~= spec_pad_player_args(volume, looping, path@));
    r
}

/// The error message for a rejected upload, or the lowercased extension
/// under which it is stored.
pub open spec fn spec_check_upload(size: nat, ext: Seq<char>) -> Result<Seq<char>, Seq<char>> {
    let lower = str_lowercase(ext);
    if size == 0 {
        Err("fichier vide"@)
    } else if size > MAX_UPLOAD_BYTES {
        Err("fichier trop gros (max 25 Mo)"@)
    } else if !allowed_ext(lower) {
        Err("extension « "@ + lower + " » non supportée (acceptées : wav, mp3, ogg, flac, m4a, aiff)"@)
    } else {
        Ok(lower)
    }
}

/// Checks an upload of `size` bytes with extension `ext` (any case): empty,
/// too large and unknown extensions are refused, in that order.
pub fn check_upload(size: usize, ext: &str) -> (r: Result<String, String>)
    ensures
        match r {
            Ok(e) => spec_check_upload(size as nat, ext@) == Ok::<Seq<char>, Seq<char>>(e@),
            Err(m) => spec_check_upload(size as nat, ext@) == Err::<Seq<char>, Seq<char>>(m@),
        },
{
    if size == 0 {
        return Err(owned("fichier vide"));
    }
    if size > MAX_UPLOAD_BYTES {
        return Err(owned("fichier trop gros (max 25 Mo)"));
    }
    let lower = to_lowercase(ext);
    if !is_allowed_ext(lower.as_str()) {
        let mut m = owned("extension « ");
        m.append(lower.as_str());
        m.append(" » non supportée (acceptées : wav, mp3, ogg, flac, m4a, aiff)");
        return Err(m);
    }
    Ok(lower)
}

/// Wrapping arithmetic on 32 bits.
pub open spec fn wrap32(x: int) -> u32 {
    (x % 0x1_0000_0000) as u32
}

/// The pseudo-random part of an upload's name, from the process id and the
/// time in ms (both taken on 32 bits): `pid * t + t / 7`, wrapping.
pub open spec fn spec_pad_rand(pid: u32, ts_ms: u64) -> u32 {
    let t = (ts_ms % 0x1_0000_0000) as u32;
    wrap32(wrap32(pid * t) + t / 7)
}

/// Pseudo-random number mixed into an upload's file name.
pub fn pad_rand(pid: u32, ts_ms: u64) -> (r: u32)
    ensures
        r == spec_pad_rand(pid, ts_ms),
{
    let t = (ts_ms % 0x1_0000_0000) as u32;
    pid.wrapping_mul(t).wrapping_add(t / 7)
}

/// `pad_<ms>_<rand mod 10000>.<ext>`.
pub open spec fn spec_pad_file_name(ts_ms: u64, rand: u32, ext: Seq<char>) -> Seq<char> {
    seq!['p', 'a', 'd', '_'] + decimal(ts_ms as nat) + seq!['_'] + decimal((rand % 10000) as nat) + seq!['.'] + ext
}

/// File name given to an uploaded sample.
pub fn pad_file_name(ts_ms: u64, rand: u32, ext: &str) -> (r: String)
    ensures
        r@ == spec_pad_file_name(ts_ms, rand, ext@),
{
    let mut s = String::new();
    push_char(&mut s, 'p');
    push_char(&mut s, 'a');
    push_char(&mut s, 'd');
    push_char(&mut s, '_');
    push_decimal(&mut s, ts_ms);
    push_char(&mut s, '_');
    push_decimal(&mut s, (rand % 10000) as u64);
    push_char(&mut s, '.');
    s.append(ext);
    assert(s@ =~= spec_pad_file_name(ts_ms, rand, ext@));
    s
}

/// Decimal writings are made of ASCII digits and are never empty.
proof fn lemma_decimal_digits(n: nat)
    ensures
        decimal(n).len() > 0,
        forall|i: int| 0 <= i < decimal(n).len() ==> '0' <= #[trigger] decimal(n)[i] <= '9',
    decreases n,
{
    if n >= 10 {
        lemma_decimal_digits(n / 10);
        let d = (n % 10) as nat;
        assert(d < 10);
        assert('0' <= digit_char(d) <= '9');
    } else {
        assert('0' <= digit_char(n) <= '9');
    }
}

/// The characters of an accepted extension: lowercase letters and digits.
proof fn lemma_ext_chars(ext: Seq<char>)
    requires
        allowed_ext(ext),
    ensures
        ext.len() > 0,
        forall|i: int| 0 <= i < ext.len() ==> ('a' <= #[trigger] ext[i] <= 'z' || '0' <= ext[i] <= '9'),
{
    reveal_strlit("wav");
    reveal_strlit("mp3");
    reveal_strlit("ogg");
    reveal_strlit("flac");
    reveal_strlit("m4a");
    reveal_strlit("aiff");
}

/// An upload with an accepted extension is stored under a name that the
/// server agrees to serve back (`path_for` accepts it).
pub proof fn uploaded_name_is_servable(ts_ms: u64, rand: u32, ext: Seq<char>)
    requires
        allowed_ext(ext),
    ensures
        valid_pad_name(spec_pad_file_name(ts_ms, rand, ext)),
{
    let d1 = decimal(ts_ms as nat);
    let d2 = decimal((rand % 10000) as nat);
    lemma_decimal_digits(ts_ms as nat);
    lemma_decimal_digits((rand % 10000) as nat);
    lemma_ext_chars(ext);
    let head = seq!['p', 'a', 'd', '_'] + d1 + seq!['_'] + d2;
    let name = spec_pad_file_name(ts_ms, rand, ext);
    assert(name =~= head + seq!['.'] + ext);
    let k = head.len() as int;
    assert forall|i: int| 0 <= i < name.len() implies
        (name[i] != '/' && name[i] != '\\' && (name[i] == '.' <==> i == k)) by {
        if i < 4 {
        } else if i < 4 + d1.len() {
            assert(name[i] == d1[i - 4]);
        } else if i == 4 + d1.len() {
        } else if i < k {
            assert(name[i] == d2[i - 5 - d1.len()]);
        } else if i == k {
        } else {
            assert(name[i] == ext[i - k - 1]);
        }
    }
    assert(!name.contains('/')) by {
        if name.contains('/') {
            let i = choose|i: int| 0 <= i < name.len() && name[i] == '/';
        }
    }
    assert(!name.contains('\\')) by {
        if name.contains('\\') {
            let i = choose|i: int| 0 <= i < name.len() && name[i] == '\\';
        }
    }
    assert(!contains_seq(name, seq!['.', '.'])) by {
        if contains_seq(name, seq!['.', '.']) {
            let i = choose|i: int| occurs_at(name, seq!['.', '.'], i);
            assert(name.subrange(i, i + 2)[0] == name[i]);
            assert(name.subrange(i, i + 2)[1] == name[i + 1]);
        }
    }
    assert(name.subrange(0, 4) =~= seq!['p', 'a', 'd', '_']);
}

} // verus!
