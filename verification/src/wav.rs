//! 16-bit WAV data read and written with `hound`, and the trimming of the
//! silence around an external recording.
use vstd::prelude::*;

verus! {

/// What `hound` reads from WAV bytes (`WavReader::new`, `spec`, then every
/// `samples::<i16>()` item, `None` for an item read with an error): the
/// format as (channels, sample rate, bits per sample, integer samples) and
/// the items; `None` when the header is refused.
pub uninterp spec fn wav_decoded(wav: Seq<u8>) -> Option<((u16, u32, u16, bool), Seq<Option<i16>>)>;

/// The bytes `hound` writes for integer samples (`WavWriter::new` on an
/// in-memory cursor, `write_sample` for each sample, `finalize`); empty when
/// the writer is refused.
pub uninterp spec fn wav_encoded(channels: u16, sample_rate: u32, bits: u16, samples: Seq<i16>) -> Seq<u8>;

/// `hound::WavReader` on in-memory bytes. Contract: the result is the
/// named decoding of the bytes; which bytes hound accepts is left to it.
#[verifier::external_body]
fn hound_decode(wav: &[u8]) -> (r: Option<((u16, u32, u16, bool), Vec<Option<i16>>)>)
    ensures
        match r {
            Some((f, s)) => wav_decoded(wav@) == Some((f, s@)),
            None => wav_decoded(wav@) is None,
        },
{
    let mut reader = match hound::WavReader::new(std::io::Cursor::new(wav)) {
        Ok(r) => r,
        Err(_) => return None,
    };
    let spec = reader.spec();
    let is_int = spec.sample_format == hound::SampleFormat::Int;
    Some(((spec.channels, spec.sample_rate, spec.bits_per_sample, is_int), reader.samples::<i16>().map(|s| s.ok()).collect()))
}

/// `hound::WavWriter` into a `Vec` with an integer format. Contract: the
/// result is the named encoding of the format and the samples. The writer
/// divides by the channel count, the sample rate and the sample width, and
/// keeps the header's byte counts in 32 bits, so it is only called on a
/// format it can write whose sizes fit there.
#[verifier::external_body]
fn hound_encode(channels: u16, sample_rate: u32, bits: u16, samples: &[i16]) -> (r: Vec<u8>)
    requires
        writable_format(channels, sample_rate, bits, samples@.len()),
    ensures
        r@ == wav_encoded(channels, sample_rate, bits, samples@),
{
    let spec = hound::WavSpec { channels, sample_rate, bits_per_sample: bits, sample_format: hound::SampleFormat::Int };
    let mut out = Vec::new();
    if let Ok(mut w) = hound::WavWriter::new(std::io::Cursor::new(&mut out), spec) {
        for &s in samples {
            let _ = w.write_sample(s);
        }
        let _ = w.finalize();
    }
    out
}

/// Bytes per sample that `hound` writes for a sample width.
pub open spec fn sample_bytes(bits: u16) -> int {
    (bits as int + 7) / 8
}

/// A format that `hound`'s writer takes without failing arithmetic: at least
/// one channel, a nonzero rate, a width of 8, 16, 24 or 32 bits, a byte rate
/// and a data size (with its header) that fit in 32 bits.
pub open spec fn writable_format(channels: u16, sample_rate: u32, bits: u16, n: nat) -> bool {
    &&& channels >= 1
    &&& sample_rate >= 1
    &&& (bits == 8 || bits == 16 || bits == 24 || bits == 32)
    &&& sample_rate as int * sample_bytes(bits) * channels as int <= u32::MAX as int
    &&& n as int * sample_bytes(bits) + 60 <= u32::MAX as int
}

fn is_writable_format(channels: u16, sample_rate: u32, bits: u16, n: usize) -> (r: bool)
    ensures
        r == writable_format(channels, sample_rate, bits, n as nat),
{
    if channels == 0 || sample_rate == 0 || !(bits == 8 || bits == 16 || bits == 24 || bits == 32) {
        return false;
    }
    let b: u128 = ((bits as u128) + 7) / 8;
    assert((sample_rate as int) * b <= 0x1_0000_0000 * 4) by (nonlinear_arith)
        requires sample_rate < 0x1_0000_0000, b <= 4;
    assert((sample_rate as int) * b * (channels as int) <= 0x1_0000_0000 * 4 * 0x1_0000) by (nonlinear_arith)
        requires (sample_rate as int) * b <= 0x1_0000_0000 * 4, channels < 0x1_0000;
    assert((n as int) * b <= 0x1_0000_0000_0000_0000 * 4) by (nonlinear_arith)
        requires n < 0x1_0000_0000_0000_0000, b <= 4;
    (sample_rate as u128) * b * (channels as u128) <= 0xFFFF_FFFF && (n as u128) * b + 60 <= 0xFFFF_FFFF
}

/// The samples read without error, in order.
pub open spec fn ok_samples(items: Seq<Option<i16>>) -> Seq<i16>
    decreases items.len(),
{
    if items.len() == 0 {
        Seq::empty()
    } else {
        match items.last() {
            Some(s) => ok_samples(items.drop_last()).push(s),
            None => ok_samples(items.drop_last()),
        }
    }
}

fn keep_ok(items: &Vec<Option<i16>>) -> (r: Vec<i16>)
    ensures
        r@ == ok_samples(items@),
{
    let mut out: Vec<i16> = Vec::new();
    let mut i: usize = 0;
    while i < items.len()
        invariant
            i <= items@.len(),
            out@ == ok_samples(items@.subrange(0, i as int)),
        decreases items@.len() - i,
    {
        proof {
            assert(items@.subrange(0, i + 1).drop_last() =~= items@.subrange(0, i as int));
        }
        match items[i] {
            Some(s) => out.push(s),
            None => {},
        }
        i = i + 1;
    }
    assert(items@.subrange(0, items@.len() as int) =~= items@);
    out
}

/// Absolute value of a sample.
pub open spec fn abs16(s: i16) -> int {
    if s < 0 { -(s as int) } else { s as int }
}

/// Largest absolute sample of `s[a..b]` (0 when empty).
pub open spec fn peak(s: Seq<i16>, a: int, b: int) -> int
    decreases b - a,
{
    if b <= a {
        0
    } else {
        let p = peak(s, a, b - 1);
        if abs16(s[b - 1]) > p { abs16(s[b - 1]) } else { p }
    }
}

/// End of the window starting at `i`.
pub open spec fn window_end(i: int, hop: int, len: int) -> int {
    if i + hop < len { i + hop } else { len }
}

/// Scan of the first `n` windows of `hop` samples: the start of the first
/// window whose peak reaches `thr`, and the start of the last one.
pub open spec fn scan(s: Seq<i16>, hop: int, thr: int, n: nat) -> (Option<int>, int)
    decreases n,
{
    if n == 0 {
        (None, 0)
    } else {
        let (f, l) = scan(s, hop, thr, (n - 1) as nat);
        let st = (n - 1) * hop;
        if peak(s, st, window_end(st, hop, s.len() as int)) >= thr {
            (if f is None { Some(st) } else { f }, st)
        } else {
            (f, l)
        }
    }
}

/// Number of windows of `hop` samples covering `len` samples.
pub open spec fn windows(len: int, hop: int) -> nat {
    ((len + hop - 1) / hop) as nat
}

/// The samples kept by the trimming, as a range `[start, end)`, or `None`
/// when nothing is cut: the first and last loud windows, widened by `keep`
/// samples on each side (the last window counted whole).
pub open spec fn trim_range(s: Seq<i16>, hop: int, thr: int, keep: int) -> Option<(int, int)> {
    let (f, l) = scan(s, hop, thr, windows(s.len() as int, hop));
    match f {
        None => None,
        Some(first) => Some((if first > keep { first - keep } else { 0 }, if l + hop + keep < s.len() { l + hop + keep } else { s.len() as int })),
    }
}

/// The WAV with its leading and trailing silence cut: 16-bit integer data
/// of at least 64 frames is scanned by windows of 10 ms; the first and the
/// last window whose peak reaches `thr_i` bound what is kept, with
/// `keep_ms` (in samples: `keep_ms * rate / 1000` rounded, per channel)
/// kept on each side. Unreadable, non-integer, too short or fully silent
/// input, a format the writer cannot take, or a failed write, gives the
/// input back.
pub open spec fn spec_trim_silence(wav: Seq<u8>, thr_i: i32, keep_ms: u32) -> Seq<u8> {
    match wav_decoded(wav) {
        None => wav,
        Some((fmt, items)) => {
            let (channels, rate, bits, is_int) = fmt;
            let s = ok_samples(items);
            let ch: int = if channels == 0 { 1 } else { channels as int };
            let hop: int = (if rate / 100 == 0 { 1 } else { rate / 100 }) * ch;
            let keep: int = ((keep_ms as int * rate as int + 500) / 1000) * ch;
            if !is_int || rate == 0 || s.len() == 0 || s.len() / (ch as nat) < 64 {
                wav
            } else {
                match trim_range(s, hop, thr_i as int, keep) {
                    None => wav,
                    Some((a, b)) => {
                        if !writable_format(channels, rate, bits, (b - a) as nat) {
                            wav
                        } else {
                            let out = wav_encoded(channels, rate, bits, s.subrange(a, b));
                            if out.len() == 0 { wav } else { out }
                        }
                    },
                }
            }
        },
    }
}

proof fn lemma_peak_step(s: Seq<i16>, a: int, b: int)
    requires
        a < b,
    ensures
        peak(s, a, b) == (if abs16(s[b - 1]) > peak(s, a, b - 1) { abs16(s[b - 1]) } else { peak(s, a, b - 1) }),
{
}

fn window_peak(s: &Vec<i16>, a: usize, b: usize) -> (r: i32)
    requires
        a <= b <= s@.len(),
    ensures
        r == peak(s@, a as int, b as int),
{
    let mut p: i32 = 0;
    let mut j = a;
    while j < b
        invariant
            a <= j <= b <= s@.len(),
            p == peak(s@, a as int, j as int),
            0 <= p <= 32768,
        decreases b - j,
    {
        let v = s[j] as i32;
        let av: i32 = if v < 0 { -v } else { v };
        proof {
            lemma_peak_step(s@, a as int, j + 1);
        }
        if av > p {
            p = av;
        }
        j = j + 1;
    }
    p
}

proof fn lemma_windows(len: int, hop: int, k: int)
    requires
        hop > 0,
        len >= 0,
        k >= 0,
    ensures
        k * hop < len <==> k < windows(len, hop),
{
    assert(k * hop < len <==> k < (len + hop - 1) / hop) by (nonlinear_arith)
        requires hop > 0, len >= 0, k >= 0;
}

/// Cuts the silence at both ends of a 16-bit WAV (see `spec_trim_silence`).
pub fn trim_silence(wav: &[u8], thr_i: i32, keep_ms: u32) -> (r: Vec<u8>)
    ensures
        r@ == spec_trim_silence(wav@, thr_i, keep_ms),
{
    let (fmt, items) = match hound_decode(wav) {
        Some(d) => d,
        None => {
            return vstd::slice::slice_to_vec(wav);
        },
    };
    let (channels, rate, bits, is_int) = fmt;
    let s = keep_ok(&items);
    let n: usize = s.len();
    let ch: usize = if channels == 0 { 1 } else { channels as usize };
    if !is_int || rate == 0 || n == 0 || n / ch < 64 {
        return vstd::slice::slice_to_vec(wav);
    }
    let h1: u64 = if rate / 100 == 0 { 1 } else { (rate / 100) as u64 };
    assert((h1 as int) * (ch as int) <= 0x1_0000_0000 * 0x1_0000) by (nonlinear_arith)
        requires h1 <= 0x1_0000_0000, ch <= 0x1_0000;
    let hop128: u128 = (h1 as u128) * (ch as u128);
    assert((keep_ms as int) * (rate as int) < 0x1_0000_0000_0000_0000) by (nonlinear_arith)
        requires keep_ms < 0x1_0000_0000, rate < 0x1_0000_0000;
    let kf: u128 = ((keep_ms as u128) * (rate as u128) + 500) / 1000;
    assert((kf as int) * (ch as int) <= 0x1_0000_0000_0000_0000 * 0x1_0000) by (nonlinear_arith)
        requires kf <= 0x1_0000_0000_0000_0000, ch <= 0x1_0000;
    let keep128: u128 = kf * (ch as u128);
    let ghost hop = hop128 as int;
    let ghost thr = thr_i as int;
    // Scan the windows.
    let mut first: Option<usize> = None;
    let mut last: usize = 0;
    let mut i: usize = 0;
    let ghost mut k: nat = 0;
    proof {
        assert(hop >= 1) by (nonlinear_arith) requires hop == h1 * ch, h1 >= 1, ch >= 1;
        lemma_windows(n as int, hop, 0);
    }
    while i < n
        invariant
            n == s@.len(),
            hop >= 1,
            hop == hop128,
            hop128 <= 0x1_0000_0000_0001_0000,
            thr == thr_i,
            i == (if k * hop < n { k * hop } else { n as int }),
            i <= n,
            first == (match scan(s@, hop, thr, k).0 { Some(f) => Some(f as usize), None => None::<usize> }),
            last == scan(s@, hop, thr, k).1,
            0 <= scan(s@, hop, thr, k).1 <= i,
            scan(s@, hop, thr, k).1 < n || k == 0,
            match scan(s@, hop, thr, k).0 { Some(f) => 0 <= f <= scan(s@, hop, thr, k).1 < n, None => true },
            k <= windows(n as int, hop),
            i < n <==> k < windows(n as int, hop),
        decreases n - i,
    {
        let end128: u128 = (i as u128) + hop128;
        let end: usize = if end128 < n as u128 { end128 as usize } else { n };
        let p = window_peak(&s, i, end);
        proof {
            assert(i == k * hop);
            assert(end == window_end(k * hop, hop, n as int));
        }
        if p >= thr_i {
            if first.is_none() {
                first = Some(i);
            }
            last = i;
        }
        proof {
            lemma_windows(n as int, hop, (k + 1) as int);
            assert((k + 1) * hop == k * hop + hop) by (nonlinear_arith);
            k = k + 1;
        }
        i = end;
    }
    proof {
        lemma_windows(n as int, hop, k as int);
        assert(k == windows(n as int, hop));
        assert(hop == (if rate / 100 == 0 { 1 } else { rate / 100 }) * (if channels == 0 { 1 } else { channels as int }));
        assert(keep128 == ((keep_ms as int * rate as int + 500) / 1000) * (if channels == 0 { 1 } else { channels as int }));
    }
    let f = match first {
        Some(f) => f,
        None => {
            return vstd::slice::slice_to_vec(wav);
        },
    };
    let start: usize = if (f as u128) > keep128 { ((f as u128) - keep128) as usize } else { 0 };
    let stop128: u128 = (last as u128) + hop128 + keep128;
    let stop: usize = if stop128 < n as u128 { stop128 as usize } else { n };
    let part = vstd::slice::slice_subrange(s.as_slice(), start, stop);
    if !is_writable_format(channels, rate, bits, part.len()) {
        return vstd::slice::slice_to_vec(wav);
    }
    let out = hound_encode(channels, rate, bits, part);
    if out.len() == 0 {
        vstd::slice::slice_to_vec(wav)
    } else {
        out
    }
}

} // verus!
