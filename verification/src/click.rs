//! Metronome click: its settings, the loop-aware frame counter of the
//! dedicated-output playback, and the resampling of 16-bit audio to the
//! device rate.
use vstd::prelude::*;
use crate::text::owned;

verus! {

/// GM metronome click.
pub const SOUND_GM_METRONOME: u8 = 0;
/// Woodblock click.
pub const SOUND_WOODBLOCK: u8 = 1;
/// Agogo click.
pub const SOUND_AGOGO: u8 = 2;
/// Taiko click.
pub const SOUND_TAIKO: u8 = 3;

/// Settings of the click (the server keeps one, behind a lock).
pub struct ClickState {
    /// Volume 0-100.
    pub volume: u8,
    /// Accent on the first beat of each bar.
    pub accent: bool,
    /// Click sound (`SOUND_*`).
    pub sound: u8,
    /// Click mixed into the rendered WAV.
    pub in_render: bool,
    /// Dedicated output device (None: no separate output).
    pub out_device: Option<String>,
    /// Offset of the separate click in ms.
    pub delay_ms: i32,
}

impl Default for ClickState {
    /// Volume 80, accent on, GM metronome, not in the render, no dedicated
    /// output, no offset.
    fn default() -> (r: ClickState)
        ensures
            r.volume == 80,
            r.accent,
            r.sound == SOUND_GM_METRONOME,
            !r.in_render,
            r.out_device is None,
            r.delay_ms == 0,
    {
        ClickState { volume: 80, accent: true, sound: SOUND_GM_METRONOME, in_render: false, out_device: None, delay_ms: 0 }
    }
}

/// The click settings as reported to the browser.
pub struct ClickConfig {
    pub volume: u8,
    pub accent: bool,
    pub sound: u8,
    pub in_render: bool,
    pub out_device: Option<String>,
    pub delay_ms: i32,
}

/// An audio output device and its channel count.
pub struct DeviceInfo {
    pub name: String,
    pub channels: u16,
}

/// The whole click state, copied out.
pub fn load(state: &ClickState) -> (r: ClickConfig)
    ensures
        r.volume == state.volume,
        r.accent == state.accent,
        r.sound == state.sound,
        r.in_render == state.in_render,
        r.delay_ms == state.delay_ms,
        match (r.out_device, state.out_device) {
            (Some(a), Some(b)) => a@ == b@,
            (None, None) => true,
            _ => false,
        },
{
    let out_device = match &state.out_device {
        Some(d) => Some(owned(d.as_str())),
        None => None,
    };
    ClickConfig {
        volume: state.volume,
        accent: state.accent,
        sound: state.sound,
        in_render: state.in_render,
        out_device,
        delay_ms: state.delay_ms,
    }
}

/// Display name of a click sound; unknown numbers are the GM metronome.
pub open spec fn spec_sound_name(sound: u8) -> Seq<char> {
    if sound == SOUND_WOODBLOCK {
        "Woodblock"@
    } else if sound == SOUND_AGOGO {
        "Agogo"@
    } else if sound == SOUND_TAIKO {
        "Taiko"@
    } else {
        "Métronome GM"@
    }
}

/// Name of the current click sound (for display).
pub fn sound_name(sound: u8) -> (r: &'static str)
    ensures
        r@ == spec_sound_name(sound),
{
    if sound == SOUND_WOODBLOCK {
        "Woodblock"
    } else if sound == SOUND_AGOGO {
        "Agogo"
    } else if sound == SOUND_TAIKO {
        "Taiko"
    } else {
        "Métronome GM"
    }
}

/// Frame to play at position `i`: `i` itself before the loop end; at or
/// past it, the loop start when looping over a valid interval, frame 0
/// when looping over the whole non-empty buffer, otherwise the end.
pub open spec fn spec_next_frame(i: nat, max_frames: nat, loop_start: nat, loop_end: nat, looping: bool) -> Option<nat> {
    if i < loop_end {
        Some(i)
    } else if looping && loop_end > loop_start && loop_start < max_frames {
        Some(loop_start)
    } else if looping && max_frames > 0 {
        Some(0)
    } else {
        None
    }
}

/// Next frame of the dedicated-output playback (handles repeat).
pub fn next_frame(i: usize, max_frames: usize, loop_start_frame: usize, loop_end_frame: usize, loop_playback: bool) -> (r: Option<usize>)
    ensures
        match r {
            Some(f) => spec_next_frame(i as nat, max_frames as nat, loop_start_frame as nat, loop_end_frame as nat, loop_playback) == Some(f as nat),
            None => spec_next_frame(i as nat, max_frames as nat, loop_start_frame as nat, loop_end_frame as nat, loop_playback) is None,
        },
{
    if i < loop_end_frame {
        return Some(i);
    }
    if loop_playback {
        if loop_end_frame > loop_start_frame && loop_start_frame < max_frames {
            return Some(loop_start_frame);
        }
        if max_frames > 0 {
            return Some(0);
        }
    }
    None
}

/// Frames after resampling `frames_in` frames from `in_rate` to `out_rate`:
/// `frames_in * out_rate / in_rate`, rounded half up.
pub open spec fn frames_out(frames_in: nat, in_rate: nat, out_rate: nat) -> nat {
    ((2 * frames_in * out_rate + in_rate) / (2 * in_rate)) as nat
}

/// `n / d` rounded to the nearest integer, halves away from zero (`d > 0`).
pub open spec fn round_div(n: int, d: int) -> int {
    if n >= 0 { (2 * n + d) / (2 * d) } else { -((-2 * n + d) / (2 * d)) }
}

/// Sample of output frame `f`, channel `c`: linear interpolation between the
/// input frames around the exact position `f * in_rate / out_rate` (the
/// last input frame repeats at the end), rounded to the nearest integer.
pub open spec fn resampled_value(s: Seq<i16>, ch: nat, frames_in: nat, in_rate: nat, out_rate: nat, f: nat, c: nat) -> int {
    let i0 = (f * in_rate / out_rate) as int;
    let rem = (f * in_rate % out_rate) as int;
    let i1 = if i0 + 1 < frames_in { i0 + 1 } else { frames_in - 1 };
    let s0 = s[i0 * ch + c] as int;
    let s1 = s[i1 * ch + c] as int;
    round_div(s0 * out_rate + (s1 - s0) * rem, out_rate as int)
}

/// Channel count used by the resampler (at least one).
pub open spec fn chan_count(channels: u16) -> nat {
    if channels == 0 { 1 } else { channels as nat }
}

/// The resampled samples (interleaved, `channels` per frame); the input is
/// returned unchanged when the rates are equal or there is no whole frame.
pub open spec fn spec_resample(s: Seq<i16>, channels: u16, in_rate: u32, out_rate: u32) -> Seq<i16> {
    let ch = chan_count(channels);
    let fin = s.len() / ch;
    if in_rate == out_rate || s.len() == 0 || fin == 0 {
        s
    } else {
        Seq::new(frames_out(fin, in_rate as nat, out_rate as nat) * ch,
            |k: int| resampled_value(s, ch, fin, in_rate as nat, out_rate as nat, (k / ch as int) as nat, (k % ch as int) as nat) as i16)
    }
}

proof fn lemma_interp_bounds(s0: int, s1: int, rem: int, d: int)
    requires
        -32768 <= s0 <= 32767,
        -32768 <= s1 <= 32767,
        0 <= rem < d,
    ensures
        -32768 <= round_div(s0 * d + (s1 - s0) * rem, d) <= 32767,
{
    let n = s0 * d + (s1 - s0) * rem;
    let lo = if s0 < s1 { s0 } else { s1 };
    let hi = if s0 < s1 { s1 } else { s0 };
    assert(lo * d <= n <= hi * d) by (nonlinear_arith)
        requires
            n == s0 * d + (s1 - s0) * rem,
            0 <= rem < d,
            lo == (if s0 < s1 { s0 } else { s1 }),
            hi == (if s0 < s1 { s1 } else { s0 });
    if n >= 0 {
        assert(0 <= (2 * n + d) / (2 * d) <= hi + 1) by (nonlinear_arith)
            requires 0 <= n <= hi * d, d > 0;
        assert((2 * n + d) / (2 * d) <= 32767) by (nonlinear_arith)
            requires 0 <= n <= hi * d, d > 0, hi <= 32767;
    } else {
        assert(0 <= (-2 * n + d) / (2 * d)) by (nonlinear_arith)
            requires n < 0, d > 0;
        assert((-2 * n + d) / (2 * d) <= 32768) by (nonlinear_arith)
            requires lo * d <= n < 0, d > 0, lo >= -32768;
    }
}

/// `round_div(s0 * d + (s1 - s0) * rem, d)` computed on 64 bits.
fn interp(s0: i16, s1: i16, rem: u64, d: u64) -> (v: i16)
    requires
        0 < d < 0x1_0000_0000,
        rem < d,
    ensures
        v as int == round_div(s0 * d + (s1 - s0) * rem, d as int),
{
    let di = d as i64;
    let ri = rem as i64;
    let a = s0 as i64;
    let b = s1 as i64;
    assert(-32768 * di <= a * di <= 32767 * di) by (nonlinear_arith) requires -32768 <= a <= 32767, di > 0;
    assert(-65535 * di <= (b - a) * ri <= 65535 * di) by (nonlinear_arith)
        requires -65535 <= b - a <= 65535, 0 <= ri < di;
    let n = a * di + (b - a) * ri;
    proof {
        lemma_interp_bounds(a as int, b as int, ri as int, di as int);
    }
    let r: i64 = if n >= 0 { (2 * n + di) / (2 * di) } else { -((-2 * n + di) / (2 * di)) };
    r as i16
}

/// Resampling a constant signal gives the same constant: interpolating
/// between equal samples adds nothing.
pub proof fn resample_constant(s: Seq<i16>, channels: u16, in_rate: u32, out_rate: u32, c: i16)
    requires
        in_rate > 0,
        out_rate > 0,
        forall|k: int| 0 <= k < s.len() ==> s[k] == c,
    ensures
        forall|k: int| 0 <= k < spec_resample(s, channels, in_rate, out_rate).len() ==>
            spec_resample(s, channels, in_rate, out_rate)[k] == c,
{
    let ch = chan_count(channels);
    let fin = s.len() / ch;
    if !(in_rate == out_rate || s.len() == 0 || fin == 0) {
        assert forall|k: int| 0 <= k < spec_resample(s, channels, in_rate, out_rate).len() implies
            spec_resample(s, channels, in_rate, out_rate)[k] == c by {
            let f = (k / ch as int) as nat;
            let cc = (k % ch as int) as nat;
            let n_out = frames_out(fin, in_rate as nat, out_rate as nat);
            assert(0 <= k / (ch as int) < n_out && 0 <= k % (ch as int) < ch) by (nonlinear_arith)
                requires 0 <= k < n_out * ch, ch >= 1;
            let i0 = (f * (in_rate as nat) / (out_rate as nat)) as int;
            let rem = (f * (in_rate as nat) % (out_rate as nat)) as int;
            let i1 = if i0 + 1 < fin { i0 + 1 } else { fin - 1 };
            assert(i0 < fin) by (nonlinear_arith)
                requires
                    i0 == f * (in_rate as nat) / (out_rate as nat),
                    f < n_out,
                    n_out == (2 * fin * out_rate + in_rate) / (2 * in_rate),
                    in_rate > 0,
                    out_rate > 0;
            assert(0 <= i0 * ch + cc < s.len() && 0 <= i1 * ch + cc < s.len()) by (nonlinear_arith)
                requires 0 <= i0 < fin, 0 <= i1 < fin, 0 <= cc < ch, fin == s.len() / ch, ch >= 1;
            let d = out_rate as int;
            assert(c * d + (c - c) * rem == c * d) by (nonlinear_arith);
            assert(round_div(c * d, d) == c) by (nonlinear_arith)
                requires d > 0, round_div(c * d, d) == (if c * d >= 0 { (2 * (c * d) + d) / (2 * d) } else { -((-2 * (c * d) + d) / (2 * d)) });
        }
    }
}

/// Linear resampling of interleaved 16-bit audio from `in_rate` to
/// `out_rate` (used to align a WAV on the output device's rate).
pub fn resample_i16(samples: &[i16], channels: u16, in_rate: u32, out_rate: u32) -> (r: Vec<i16>)
    requires
        in_rate > 0,
        out_rate > 0,
        frames_out(samples@.len() / chan_count(channels), in_rate as nat, out_rate as nat) * chan_count(channels) <= usize::MAX,
    ensures
        r@ == spec_resample(samples@, channels, in_rate, out_rate),
{
    if in_rate == out_rate || samples.len() == 0 {
        return vstd::slice::slice_to_vec(samples);
    }
    let total: usize = samples.len();
    let ch: usize = if channels == 0 { 1 } else { channels as usize };
    let frames_in = total / ch;
    if frames_in == 0 {
        return vstd::slice::slice_to_vec(samples);
    }
    let ghost fo = frames_out(frames_in as nat, in_rate as nat, out_rate as nat);
    assert(2 * (frames_in as int) * (out_rate as int) + in_rate < 0x1_0000_0000_0000_0000_0000_0000_0000) by (nonlinear_arith)
        requires frames_in < 0x1_0000_0000_0000_0000, out_rate < 0x1_0000_0000, in_rate < 0x1_0000_0000;
    let fo128: u128 = (2 * (frames_in as u128) * (out_rate as u128) + in_rate as u128) / (2 * in_rate as u128);
    assert(fo128 == fo);
    assert(fo * ch <= usize::MAX);
    assert(fo <= fo * ch) by (nonlinear_arith) requires ch >= 1;
    let n_out = fo128 as usize;
    let mut out: Vec<i16> = Vec::new();
    let mut f: usize = 0;
    while f < n_out
        invariant
            ch == chan_count(channels),
            frames_in == samples@.len() / (ch as nat),
            samples@.len() <= usize::MAX,
            frames_in > 0,
            fo == frames_out(frames_in as nat, in_rate as nat, out_rate as nat),
            n_out == fo,
            fo * ch <= usize::MAX,
            in_rate > 0,
            out_rate > 0,
            f <= n_out,
            out@.len() == f * ch,
            forall|k: int| 0 <= k < out@.len() ==> out@[k] == resampled_value(samples@, ch as nat, frames_in as nat, in_rate as nat, out_rate as nat, (k / ch as int) as nat, (k % ch as int) as nat) as i16,
        decreases n_out - f,
    {
        assert((f as int) * (in_rate as int) < 0x1_0000_0000_0000_0000_0000_0000) by (nonlinear_arith)
            requires f < 0x1_0000_0000_0000_0000, in_rate < 0x1_0000_0000;
        assert(fo == (2 * frames_in * out_rate + in_rate) / (2 * in_rate));
        let prod: u128 = (f as u128) * (in_rate as u128);
        let i0_128 = prod / (out_rate as u128);
        let rem128 = prod % (out_rate as u128);
        assert(i0_128 < frames_in) by (nonlinear_arith)
            requires
                prod == f * in_rate,
                i0_128 == (prod as int) / (out_rate as int),
                f < fo,
                fo == (2 * frames_in * out_rate + in_rate) / (2 * in_rate),
                in_rate > 0,
                out_rate > 0;
        let i0 = i0_128 as usize;
        let rem = rem128 as i64;
        let i1 = if i0 + 1 < frames_in { i0 + 1 } else { frames_in - 1 };
        assert(i0 * ch + ch <= samples@.len()) by (nonlinear_arith)
            requires i0 < frames_in, frames_in == samples@.len() / (ch as nat), ch >= 1;
        assert(i1 * ch + ch <= samples@.len()) by (nonlinear_arith)
            requires i1 < frames_in, frames_in == samples@.len() / (ch as nat), ch >= 1;
        let mut c: usize = 0;
        while c < ch
            invariant
                ch == chan_count(channels),
                frames_in == samples@.len() / (ch as nat),
                samples@.len() <= usize::MAX,
                frames_in > 0,
                fo == frames_out(frames_in as nat, in_rate as nat, out_rate as nat),
                n_out == fo,
                fo * ch <= usize::MAX,
                in_rate > 0,
                out_rate > 0,
                f < n_out,
                c <= ch,
                i0 == f * in_rate / (out_rate as int),
                rem == f * in_rate % (out_rate as int),
                i1 == (if i0 + 1 < frames_in { i0 + 1 } else { frames_in - 1 }),
                i0 * ch + ch <= samples@.len(),
                i1 * ch + ch <= samples@.len(),
                out@.len() == f * ch + c,
                forall|k: int| 0 <= k < out@.len() ==> out@[k] == resampled_value(samples@, ch as nat, frames_in as nat, in_rate as nat, out_rate as nat, (k / ch as int) as nat, (k % ch as int) as nat) as i16,
            decreases ch - c,
        {
            assert(0 <= rem < out_rate) by (nonlinear_arith) requires rem == f * in_rate % (out_rate as int), out_rate > 0;
            assert(i0 * ch + c < samples@.len()) by (nonlinear_arith)
                requires i0 * ch + ch <= samples@.len(), c < ch;
            assert(i1 * ch + c < samples@.len()) by (nonlinear_arith)
                requires i1 * ch + ch <= samples@.len(), c < ch;
            let s0 = samples[i0 * ch + c];
            let s1 = samples[i1 * ch + c];
            let v = interp(s0, s1, rem as u64, out_rate as u64);
            let k = out.len();
            proof {
                assert(f * ch + c < fo * ch) by (nonlinear_arith) requires f < fo, c < ch;
                assert((k as int) / (ch as int) == f && (k as int) % (ch as int) == c) by (nonlinear_arith)
                    requires k == f * ch + c, 0 <= c < ch;
            }
            out.push(v);
            c = c + 1;
        }
        assert(f * ch + ch == (f + 1) * ch) by (nonlinear_arith);
        f = f + 1;
    }
    proof {
        assert(out@ =~= spec_resample(samples@, channels, in_rate, out_rate));
    }
    out
}

/// A change of the click settings (absent fields are left as they are).
pub struct ClickChange {
    pub volume: Option<u8>,
    pub accent: Option<bool>,
    pub sound: Option<u8>,
    pub in_render: Option<bool>,
    /// A dedicated output; the empty name means none.
    pub out_device: Option<String>,
    pub delay_ms: Option<i32>,
}

/// Applies a change: the volume is capped at 100, the sound at the last one
/// (`SOUND_TAIKO`), the offset kept within ±200 ms, and an empty device name
/// removes the dedicated output.
pub fn apply_click_change(st: &mut ClickState, c: ClickChange)
    ensures
        final(st).volume == (match c.volume { Some(v) => if v > 100 { 100u8 } else { v }, None => old(st).volume }),
        final(st).accent == (match c.accent { Some(a) => a, None => old(st).accent }),
        final(st).sound == (match c.sound { Some(v) => if v > SOUND_TAIKO { SOUND_TAIKO } else { v }, None => old(st).sound }),
        final(st).in_render == (match c.in_render { Some(b) => b, None => old(st).in_render }),
        final(st).delay_ms == (match c.delay_ms {
            Some(d) => if d < -200 { -200i32 } else if d > 200 { 200i32 } else { d },
            None => old(st).delay_ms,
        }),
        match c.out_device {
            Some(d) => if d@.len() == 0 { final(st).out_device is None } else { final(st).out_device == Some(d) },
            None => final(st).out_device == old(st).out_device,
        },
{
    match c.volume {
        Some(v) => {
            st.volume = if v > 100 { 100 } else { v };
        },
        None => {},
    }
    match c.accent {
        Some(a) => {
            st.accent = a;
        },
        None => {},
    }
    match c.sound {
        Some(v) => {
            st.sound = if v > SOUND_TAIKO { SOUND_TAIKO } else { v };
        },
        None => {},
    }
    match c.in_render {
        Some(b) => {
            st.in_render = b;
        },
        None => {},
    }
    match c.delay_ms {
        Some(d) => {
            st.delay_ms = if d < -200 { -200 } else if d > 200 { 200 } else { d };
        },
        None => {},
    }
    match c.out_device {
        Some(d) => {
            if d.unicode_len() == 0 {
                st.out_device = None;
            } else {
                st.out_device = Some(d);
            }
        },
        None => {},
    }
}

/// How the click goes with a render: mixed into the WAV, and/or written as
/// a separate file for a dedicated output. The request's own flags win
/// (mixing first); without them the settings decide, a dedicated output
/// counting only when the click is not in the render.
pub fn click_modes(click_in_render: bool, click_separate: bool, in_render: bool, has_out_device: bool) -> (r: (bool, bool))
    ensures
        r.0 == (click_in_render || (!click_separate && in_render)),
        r.1 == (click_separate || (!click_in_render && has_out_device && !in_render)),
{
    let mix = if click_in_render { true } else if click_separate { false } else { in_render };
    let sep = if click_separate { true } else if click_in_render { false } else { has_out_device && !in_render };
    (mix, sep)
}

} // verus!
