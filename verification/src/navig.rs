//! Navigation mode: the rules of the MIDI playback of a piece (setup of the
//! tracks, route and velocity of a piano-roll note, the metronome's channel,
//! sound and velocity) and the tracks of a render request.
use vstd::prelude::*;
use crate::render::{TrackCfg, find_track, track_for_channel, default_track};
use crate::live_seq::{reset_msgs, reset_messages, cc_msg};
use crate::mpe::msgs_view;
use crate::dsp::Fx;
use crate::click::{SOUND_WOODBLOCK, SOUND_AGOGO, SOUND_TAIKO};

verus! {

/// The channel of the click when FluidSynth is absent: the first channel
/// other than 9 used by no track, else the drum channel 9.
pub open spec fn spec_free_click_channel(used: Seq<u8>) -> u8 {
    if exists|c: int| 0 <= c < 16 && c != 9 && !#[trigger] used.contains(c as u8) {
        let c = choose|c: int| 0 <= c < 16 && c != 9 && !#[trigger] used.contains(c as u8)
            && forall|d: int| 0 <= d < c && d != 9 ==> #[trigger] used.contains(d as u8);
        c as u8
    } else {
        9
    }
}

fn contains_u8(v: &[u8], x: u8) -> (r: bool)
    ensures
        r == v@.contains(x),
{
    let mut i: usize = 0;
    while i < v.len()
        invariant
            i <= v@.len(),
            forall|k: int| 0 <= k < i ==> v@[k] != x,
        decreases v@.len() - i,
    {
        if v[i] == x {
            return true;
        }
        i = i + 1;
    }
    false
}

/// Channel of the click on the main output, given the tracks' channels.
pub fn free_click_channel(used: &[u8]) -> (r: u8)
    ensures
        r == spec_free_click_channel(used@),
{
    let mut c: u8 = 0;
    while c < 16
        invariant
            c <= 16,
            forall|d: int| 0 <= d < c && d != 9 ==> #[trigger] used@.contains(d as u8),
        decreases 16 - c,
    {
        if c != 9 && !contains_u8(used, c) {
            proof {
                let w = c as int;
                assert(0 <= w < 16 && w != 9 && !used@.contains(w as u8));
                let ch = choose|x: int| 0 <= x < 16 && x != 9 && !#[trigger] used@.contains(x as u8)
                    && forall|d: int| 0 <= d < x && d != 9 ==> #[trigger] used@.contains(d as u8);
                if ch < w {
                } else if ch > w {
                    assert(used@.contains(w as u8));
                }
                assert(ch == w);
            }
            return c;
        }
        c = c + 1;
    }
    proof {
        if exists|x: int| 0 <= x < 16 && x != 9 && !#[trigger] used@.contains(x as u8) {
            let x = choose|x: int| 0 <= x < 16 && x != 9 && !#[trigger] used@.contains(x as u8);
            assert(used@.contains(x as u8));
        }
    }
    9
}

/// Pitch and program of the click on a melodic channel: woodblock (72,
/// 115), agogo (74, 114), taiko (55, 116); the GM metronome falls back on
/// the woodblock.
pub open spec fn spec_fallback_click_sound(sound: u8) -> (u8, u16) {
    if sound == SOUND_WOODBLOCK {
        (72, 115)
    } else if sound == SOUND_AGOGO {
        (74, 114)
    } else if sound == SOUND_TAIKO {
        (55, 116)
    } else {
        (72, 115)
    }
}

/// Click pitch and program on the main output: the GM bell (34) on the
/// drum channel, otherwise the melodic fallback of the chosen sound.
pub fn click_sound_for(click_chan: u8, sound: u8) -> (r: (u8, u16))
    ensures
        r == (if click_chan == 9 { (34u8, 0u16) } else { spec_fallback_click_sound(sound) }),
{
    if click_chan == 9 {
        (34, 0)
    } else if sound == SOUND_WOODBLOCK {
        (72, 115)
    } else if sound == SOUND_AGOGO {
        (74, 114)
    } else if sound == SOUND_TAIKO {
        (55, 116)
    } else {
        (72, 115)
    }
}

/// Velocity of a click at volume `vol` (percent): 127 or 120 scaled by
/// `vol / 100`, rounded half up, at most 255.
pub open spec fn spec_click_velocity(vol: u8, accent: bool) -> u8 {
    let base: int = if accent { 127 } else { 120 };
    let v = (2 * vol * base + 100) / 200;
    if v > 255 { 255 } else { v as u8 }
}

/// Velocity of a metronome click.
pub fn click_velocity(vol: u8, accent: bool) -> (r: u8)
    ensures
        r == spec_click_velocity(vol, accent),
{
    let base: u32 = if accent { 127 } else { 120 };
    assert(2 * (vol as int) * (base as int) <= 2 * 255 * 127) by (nonlinear_arith)
        requires vol <= 255, base <= 127;
    let v = (2 * (vol as u32) * base + 100) / 200;
    if v > 255 { 255 } else { v as u8 }
}

/// Set-up of one track before a MIDI playback: nothing for a muted track or
/// a drum track off channel 9 (its notes go to 9); on 9 the kit's bank
/// (when one is chosen) and program; elsewhere the program and the reverb
/// (CC91) and chorus (CC93) sends.
pub open spec fn track_setup_msgs(t: TrackCfg) -> Seq<Seq<u8>> {
    if t.mute || (t.drums && t.channel != 9) {
        Seq::empty()
    } else if t.channel == 9 {
        (if t.bank_msb != 0 || t.bank_lsb != 0 { seq![cc_msg(9, 0, t.bank_msb), cc_msg(9, 32, t.bank_lsb)] } else { Seq::empty() })
            .push(seq![0xC9u8, (t.program % 256) as u8])
    } else {
        seq![seq![0xC0u8 | t.channel, (t.program % 256) as u8], cc_msg(t.channel, 91, t.fx.reverb), cc_msg(t.channel, 93, t.fx.chorus)]
    }
}

/// Set-up of all tracks, in order.
pub open spec fn tracks_setup_msgs(tracks: Seq<TrackCfg>) -> Seq<Seq<u8>>
    decreases tracks.len(),
{
    if tracks.len() == 0 {
        Seq::empty()
    } else {
        tracks_setup_msgs(tracks.drop_last()) + track_setup_msgs(tracks.last())
    }
}

/// Messages before a MIDI playback: all notes off, then the set-up of the
/// tracks.
pub fn custom_setup_messages(tracks: &[TrackCfg]) -> (r: Vec<Vec<u8>>)
    ensures
        msgs_view(r@) == reset_msgs() + tracks_setup_msgs(tracks@),
{
    let mut out = reset_messages();
    let mut i: usize = 0;
    while i < tracks.len()
        invariant
            i <= tracks@.len(),
            msgs_view(out@) == reset_msgs() + tracks_setup_msgs(tracks@.subrange(0, i as int)),
        decreases tracks@.len() - i,
    {
        let t = tracks[i];
        let ghost before = msgs_view(out@);
        if t.mute || (t.drums && t.channel != 9) {
        } else if t.channel == 9 {
            if t.bank_msb != 0 || t.bank_lsb != 0 {
                out.push(vec![0xB0u8 | 9u8, 0u8, t.bank_msb]);
                out.push(vec![0xB0u8 | 9u8, 32u8, t.bank_lsb]);
            }
            out.push(vec![0xC9u8, (t.program % 256) as u8]);
        } else {
            out.push(vec![0xC0u8 | t.channel, (t.program % 256) as u8]);
            out.push(vec![0xB0u8 | t.channel, 91u8, t.fx.reverb]);
            out.push(vec![0xB0u8 | t.channel, 93u8, t.fx.chorus]);
        }
        proof {
            let s = tracks@.subrange(0, i + 1);
            assert(s.drop_last() =~= tracks@.subrange(0, i as int));
            assert(msgs_view(out@) =~= before + track_setup_msgs(t));
            assert(reset_msgs() + tracks_setup_msgs(s) =~= (reset_msgs() + tracks_setup_msgs(tracks@.subrange(0, i as int))) + track_setup_msgs(t));
        }
        i = i + 1;
    }
    assert(tracks@.subrange(0, tracks@.len() as int) =~= tracks@);
    out
}

/// Where a piano-roll note plays: nowhere when its track is missing or
/// muted; otherwise on its channel (channel 9 for a drum track) with the
/// velocity scaled by the track volume (`velocity * volume / 127`, at most
/// 127).
pub open spec fn spec_custom_note_route(tracks: Seq<TrackCfg>, channel: u8, velocity: u8) -> Option<(u8, u8)> {
    match find_track(tracks, channel) {
        None => None,
        Some(t) => if t.mute {
            None
        } else {
            let v = velocity as int * t.volume as int / 127;
            Some((if t.drums && channel != 9 { 9u8 } else { channel }, if v > 127 { 127u8 } else { v as u8 }))
        },
    }
}

/// Output channel and velocity of a piano-roll note, if it plays.
pub fn custom_note_route(tracks: &[TrackCfg], channel: u8, velocity: u8) -> (r: Option<(u8, u8)>)
    ensures
        r == spec_custom_note_route(tracks@, channel, velocity),
{
    match track_for_channel(tracks, channel) {
        None => None,
        Some(t) => {
            if t.mute {
                None
            } else {
                assert((velocity as int) * (t.volume as int) <= 255 * 255) by (nonlinear_arith)
                    requires velocity <= 255, t.volume <= 255;
                let v = (velocity as u32) * (t.volume as u32) / 127;
                let out_ch = if t.drums && channel != 9 { 9u8 } else { channel };
                Some((out_ch, if v > 127 { 127u8 } else { v as u8 }))
            }
        },
    }
}

/// The channel a piano-roll note is sent on: 9 when a track on its
/// channel (any of them) is a drum track, else its own channel.
pub open spec fn spec_note_out_channel(tracks: Seq<TrackCfg>, channel: u8) -> u8 {
    if channel != 9 && exists|i: int| 0 <= i < tracks.len() && #[trigger] tracks[i].channel == channel && tracks[i].drums {
        9
    } else {
        channel
    }
}

/// Output channel of a piano-roll note on `channel`.
pub fn note_out_channel(tracks: &[TrackCfg], channel: u8) -> (r: u8)
    ensures
        r == spec_note_out_channel(tracks@, channel),
{
    if channel == 9 {
        return 9;
    }
    let mut i: usize = 0;
    while i < tracks.len()
        invariant
            i <= tracks@.len(),
            forall|k: int| 0 <= k < i ==> !(#[trigger] tracks@[k].channel == channel && tracks@[k].drums),
        decreases tracks@.len() - i,
    {
        if tracks[i].channel == channel && tracks[i].drums {
            return 9;
        }
        i = i + 1;
    }
    channel
}

/// The channel a track's own messages go to: 9 for a drum track.
pub open spec fn spec_track_out_channel(t: TrackCfg) -> u8 {
    if t.drums && t.channel != 9 { 9 } else { t.channel }
}

/// Output channel of a track's set-up messages.
pub fn track_out_channel(t: &TrackCfg) -> (r: u8)
    ensures
        r == spec_track_out_channel(*t),
{
    if t.drums && t.channel != 9 { 9 } else { t.channel }
}

/// Set-up of one track before an external render: nothing when muted,
/// else on its output channel the program and the reverb (CC91) and chorus
/// (CC93) sends.
pub open spec fn external_track_msgs(t: TrackCfg) -> Seq<Seq<u8>> {
    if t.mute {
        Seq::empty()
    } else {
        let ch = spec_track_out_channel(t);
        seq![seq![0xC0u8 | ch, (t.program % 256) as u8], cc_msg(ch, 91, t.fx.reverb), cc_msg(ch, 93, t.fx.chorus)]
    }
}

/// Set-up of all tracks, in order.
pub open spec fn external_tracks_msgs(tracks: Seq<TrackCfg>) -> Seq<Seq<u8>>
    decreases tracks.len(),
{
    if tracks.len() == 0 {
        Seq::empty()
    } else {
        external_tracks_msgs(tracks.drop_last()) + external_track_msgs(tracks.last())
    }
}

/// Messages before an external render: all notes off, then the set-up of
/// each track that plays.
pub fn external_setup_messages(tracks: &[TrackCfg]) -> (r: Vec<Vec<u8>>)
    ensures
        msgs_view(r@) == reset_msgs() + external_tracks_msgs(tracks@),
{
    let mut out = reset_messages();
    let mut i: usize = 0;
    while i < tracks.len()
        invariant
            i <= tracks@.len(),
            msgs_view(out@) == reset_msgs() + external_tracks_msgs(tracks@.subrange(0, i as int)),
        decreases tracks@.len() - i,
    {
        let t = tracks[i];
        let ghost before = msgs_view(out@);
        if !t.mute {
            let ch = track_out_channel(&t);
            out.push(vec![0xC0u8 | ch, (t.program % 256) as u8]);
            out.push(vec![0xB0u8 | ch, 91u8, t.fx.reverb]);
            out.push(vec![0xB0u8 | ch, 93u8, t.fx.chorus]);
        }
        proof {
            let s = tracks@.subrange(0, i + 1);
            assert(s.drop_last() =~= tracks@.subrange(0, i as int));
            assert(msgs_view(out@) =~= before + external_track_msgs(t));
            assert(reset_msgs() + external_tracks_msgs(s) =~= (reset_msgs() + external_tracks_msgs(tracks@.subrange(0, i as int)))
                + external_track_msgs(t));
        }
        i = i + 1;
    }
    assert(tracks@.subrange(0, tracks@.len() as int) =~= tracks@);
    out
}

/// Program of the click on FluidSynth's channel 15: woodblock 115, agogo
/// 114, taiko 116; none for the GM metronome, which plays on the drum
/// channel.
pub open spec fn spec_fluid_click_program(sound: u8) -> Option<u8> {
    if sound == SOUND_WOODBLOCK {
        Some(115u8)
    } else if sound == SOUND_AGOGO {
        Some(114u8)
    } else if sound == SOUND_TAIKO {
        Some(116u8)
    } else {
        None
    }
}

/// Program change to send to FluidSynth's click channel, if any.
pub fn fluid_click_program(sound: u8) -> (r: Option<u8>)
    ensures
        r == spec_fluid_click_program(sound),
{
    if sound == SOUND_WOODBLOCK {
        Some(115)
    } else if sound == SOUND_AGOGO {
        Some(114)
    } else if sound == SOUND_TAIKO {
        Some(116)
    } else {
        None
    }
}

/// Where the clicks of a playback go, as (channel, accented pitch, plain
/// pitch). On FluidSynth: channel 15 with the melodic sound's pitch
/// (woodblock 72, agogo 74, taiko 55), or the GM metronome on channel 9
/// (bell 34 on the accent, click 33). On the main output: the GM metronome
/// when the click has the drum channel, else the click channel with its
/// melodic pitch on every beat.
pub open spec fn spec_click_target(on_fluid: bool, sound: u8, click_chan: u8, click_pitch: u8) -> (u8, u8, u8) {
    if on_fluid {
        if sound == SOUND_WOODBLOCK {
            (15u8, 72u8, 72u8)
        } else if sound == SOUND_AGOGO {
            (15u8, 74u8, 74u8)
        } else if sound == SOUND_TAIKO {
            (15u8, 55u8, 55u8)
        } else {
            (9u8, 34u8, 33u8)
        }
    } else if click_chan == 9 {
        (9u8, 34u8, 33u8)
    } else {
        (click_chan, click_pitch, click_pitch)
    }
}

/// Channel and pitches of the clicks of a playback.
pub fn click_target(on_fluid: bool, sound: u8, click_chan: u8, click_pitch: u8) -> (r: (u8, u8, u8))
    ensures
        r == spec_click_target(on_fluid, sound, click_chan, click_pitch),
{
    if on_fluid {
        if sound == SOUND_WOODBLOCK {
            (15, 72, 72)
        } else if sound == SOUND_AGOGO {
            (15, 74, 74)
        } else if sound == SOUND_TAIKO {
            (15, 55, 55)
        } else {
            (9, 34, 33)
        }
    } else if click_chan == 9 {
        (9, 34, 33)
    } else {
        (click_chan, click_pitch, click_pitch)
    }
}

/// A track as sent by the browser (absent fields take their defaults).
#[derive(Clone, Copy, Debug, PartialEq, Eq, Structural)]
pub struct RequestTrack {
    pub channel: u8,
    pub program: Option<u16>,
    pub volume: Option<u8>,
    pub mute: Option<bool>,
    pub drums: Option<bool>,
    pub bank_msb: Option<u8>,
    pub bank_lsb: Option<u8>,
    pub effects: Option<Fx>,
}

/// A requested track with its defaults: program 0, volume 100, not muted,
/// not a drum track, bank 0, no effect.
pub open spec fn spec_request_track(r: RequestTrack) -> TrackCfg {
    TrackCfg {
        channel: r.channel,
        program: match r.program { Some(p) => p, None => 0 },
        volume: match r.volume { Some(v) => v, None => 100 },
        mute: match r.mute { Some(m) => m, None => false },
        drums: match r.drums { Some(d) => d, None => false },
        bank_msb: match r.bank_msb { Some(b) => b, None => 0 },
        bank_lsb: match r.bank_lsb { Some(b) => b, None => 0 },
        fx: match r.effects { Some(f) => f, None => Fx { reverb: 0, chorus: 0, delay: 0, drive: 0 } },
    }
}

/// The five tracks of a request without a track list: lead (program
/// `inst_val`, volume 60), bass (33, 70), pads (48, 60), drums (1, 90) and
/// accent (2, 50), muted as the switches say (the accent is never muted).
pub open spec fn spec_legacy_tracks(inst_val: u16, arps: bool, bass: bool, nappes: bool, drums: bool) -> Seq<TrackCfg> {
    seq![
        TrackCfg { mute: !arps, ..default_track(0, inst_val, 60) },
        TrackCfg { mute: !bass, ..default_track(2, 33, 70) },
        TrackCfg { mute: !nappes, ..default_track(3, 48, 60) },
        TrackCfg { mute: !drums, ..default_track(9, 1, 90) },
        default_track(4, 2, 50),
    ]
}

/// The tracks of a render request: the requested list with its defaults,
/// or the five legacy tracks.
pub fn request_tracks(tracks: Option<&[RequestTrack]>, inst_val: u16, arps: bool, bass: bool, nappes: bool, drums: bool) -> (r: Vec<TrackCfg>)
    ensures
        r@ == match tracks {
            Some(t) => t@.map_values(|x: RequestTrack| spec_request_track(x)),
            None => spec_legacy_tracks(inst_val, arps, bass, nappes, drums),
        },
{
    match tracks {
        Some(ts) => {
            let mut out: Vec<TrackCfg> = Vec::new();
            let mut i: usize = 0;
            while i < ts.len()
                invariant
                    i <= ts@.len(),
                    out@ == ts@.subrange(0, i as int).map_values(|x: RequestTrack| spec_request_track(x)),
                decreases ts@.len() - i,
            {
                let r = ts[i];
                let t = TrackCfg {
                    channel: r.channel,
                    program: match r.program { Some(p) => p, None => 0 },
                    volume: match r.volume { Some(v) => v, None => 100 },
                    mute: match r.mute { Some(m) => m, None => false },
                    drums: match r.drums { Some(d) => d, None => false },
                    bank_msb: match r.bank_msb { Some(b) => b, None => 0 },
                    bank_lsb: match r.bank_lsb { Some(b) => b, None => 0 },
                    fx: match r.effects { Some(f) => f, None => Fx::none() },
                };
                out.push(t);
                proof {
                    assert(ts@.subrange(0, i + 1).map_values(|x: RequestTrack| spec_request_track(x))
                        =~= ts@.subrange(0, i as int).map_values(|x: RequestTrack| spec_request_track(x)).push(spec_request_track(r)));
                }
                i = i + 1;
            }
            assert(ts@.subrange(0, ts@.len() as int) =~= ts@);
            out
        },
        None => {
            let none = Fx::none();
            let r = vec![
                TrackCfg { channel: 0, program: inst_val, volume: 60, mute: !arps, drums: false, bank_msb: 0, bank_lsb: 0, fx: none },
                TrackCfg { channel: 2, program: 33, volume: 70, mute: !bass, drums: false, bank_msb: 0, bank_lsb: 0, fx: none },
                TrackCfg { channel: 3, program: 48, volume: 60, mute: !nappes, drums: false, bank_msb: 0, bank_lsb: 0, fx: none },
                TrackCfg { channel: 9, program: 1, volume: 90, mute: !drums, drums: false, bank_msb: 0, bank_lsb: 0, fx: none },
                TrackCfg { channel: 4, program: 2, volume: 50, mute: false, drums: false, bank_msb: 0, bank_lsb: 0, fx: none },
            ];
            assert(r@ =~= spec_legacy_tracks(inst_val, arps, bass, nappes, drums));
            r
        },
    }
}

/// Positions of the generated notes played beside the piano-roll notes:
/// those whose channel is not edited in the piano roll (an edited channel
/// plays its piano-roll notes only, even when it has none).
pub open spec fn classic_positions(channels: Seq<u8>, custom: Seq<u8>) -> Seq<usize>
    decreases channels.len(),
{
    if channels.len() == 0 {
        Seq::empty()
    } else {
        let r = classic_positions(channels.drop_last(), custom);
        if custom.contains(channels.last()) { r } else { r.push((channels.len() - 1) as usize) }
    }
}

/// Positions of the generated notes to keep, given each note's channel and
/// the channels edited in the piano roll.
pub fn classic_kept(channels: &[u8], custom: &[u8]) -> (r: Vec<usize>)
    ensures
        r@ == classic_positions(channels@, custom@),
{
    let mut out: Vec<usize> = Vec::new();
    let mut i: usize = 0;
    while i < channels.len()
        invariant
            i <= channels@.len(),
            out@ == classic_positions(channels@.subrange(0, i as int), custom@),
        decreases channels@.len() - i,
    {
        proof {
            assert(channels@.subrange(0, i + 1).drop_last() =~= channels@.subrange(0, i as int));
        }
        if !contains_u8(custom, channels[i]) {
            out.push(i);
        }
        i = i + 1;
    }
    assert(channels@.subrange(0, channels@.len() as int) =~= channels@);
    out
}

} // verus!
