//! Offline rendering of a chord grid: track settings, the drum track that
//! must exist when drum notes do, and the Standard MIDI Files given to the
//! synthesizer (notes placed on ticks, 288 per beat).
use vstd::prelude::*;
use crate::dsp::Fx;
use crate::smf::{SmfEvent, models, sort_by_tick, sort_events, track_events, tempo_meta, tempo_us, tempo_meta_bytes, tempo_to_us, write_track_events, write_vlq, write_header, write_track_chunk, smf_header, track_chunk, vlq, end_of_track};
use crate::text::{chars_of, owned};
use crate::num::{parse_unsigned, parse_unsigned_chars};

verus! {

pub const CH_LEAD: u8 = 0;
pub const CH_BASS: u8 = 2;
pub const CH_STR: u8 = 3;
pub const CH_ACC: u8 = 4;
pub const CH_DRUMS: u8 = 9;

/// Settings of one rendered track.
#[derive(Clone, Copy, Debug, PartialEq, Eq, Structural)]
pub struct TrackCfg {
    pub channel: u8,
    pub program: u16,
    pub volume: u8,
    pub mute: bool,
    /// Percussion track on a channel other than 9: its notes go to channel 9.
    pub drums: bool,
    pub bank_msb: u8,
    pub bank_lsb: u8,
    pub fx: Fx,
}

/// Settings of a whole render.
pub struct RenderCfg {
    pub tempo: u32,
    pub pattern: String,
    pub walking: bool,
    pub sig: String,
    pub lead_inst: u16,
    pub tracks: Vec<TrackCfg>,
}

pub open spec fn default_track(channel: u8, program: u16, volume: u8) -> TrackCfg {
    TrackCfg {
        channel,
        program,
        volume,
        mute: false,
        drums: false,
        bank_msb: 0,
        bank_lsb: 0,
        fx: Fx { reverb: 0, chorus: 0, delay: 0, drive: 0 },
    }
}

fn track(channel: u8, program: u16, volume: u8) -> (t: TrackCfg)
    ensures
        t == default_track(channel, program, volume),
{
    TrackCfg { channel, program, volume, mute: false, drums: false, bank_msb: 0, bank_lsb: 0, fx: Fx::none() }
}

impl Default for RenderCfg {
    /// 120 BPM rock in 4/4 without walking bass, lead on program 51, and the
    /// five default tracks (lead, bass, pads, drums, accent).
    fn default() -> (r: RenderCfg)
        ensures
            r.tempo == 120,
            r.pattern@ == "rock"@,
            !r.walking,
            r.sig@ == "4/4"@,
            r.lead_inst == 51,
            r.tracks@ == seq![
                default_track(0, 51, 60),
                default_track(2, 33, 70),
                default_track(3, 48, 60),
                default_track(9, 1, 90),
                default_track(4, 2, 50),
            ],
    {
        let tracks = vec![track(0, 51, 60), track(2, 33, 70), track(3, 48, 60), track(9, 1, 90), track(4, 2, 50)];
        let r = RenderCfg {
            tempo: 120,
            pattern: owned("rock"),
            walking: false,
            sig: owned("4/4"),
            lead_inst: 51,
            tracks,
        };
        assert(r.tracks@ =~= seq![
            default_track(0, 51, 60),
            default_track(2, 33, 70),
            default_track(3, 48, 60),
            default_track(9, 1, 90),
            default_track(4, 2, 50),
        ]);
        r
    }
}

/// The first track on a channel.
pub open spec fn find_track(tracks: Seq<TrackCfg>, ch: u8) -> Option<TrackCfg>
    decreases tracks.len(),
{
    if tracks.len() == 0 {
        None
    } else if tracks[0].channel == ch {
        Some(tracks[0])
    } else {
        find_track(tracks.drop_first(), ch)
    }
}

/// Finds the first track on channel `ch`.
pub fn track_for_channel(tracks: &[TrackCfg], ch: u8) -> (r: Option<TrackCfg>)
    ensures
        r == find_track(tracks@, ch),
{
    let mut i: usize = 0;
    assert(tracks@.subrange(0, tracks@.len() as int) == tracks@);
    while i < tracks.len()
        invariant
            i <= tracks@.len(),
            find_track(tracks@, ch) == find_track(tracks@.subrange(i as int, tracks@.len() as int), ch),
        decreases tracks@.len() - i,
    {
        proof {
            let s = tracks@.subrange(i as int, tracks@.len() as int);
            assert(s[0] == tracks@[i as int]);
            assert(s.drop_first() == tracks@.subrange(i + 1, tracks@.len() as int));
        }
        if tracks[i].channel == ch {
            return Some(tracks[i]);
        }
        i = i + 1;
    }
    None
}

/// One track rendered alone: its channel and its WAV bytes.
pub struct RenderedTrack {
    pub channel: u8,
    pub wav: Vec<u8>,
}

/// A note placed on ticks. `eot_tick` is where the track would end if this
/// note were the last one written.
#[derive(Clone, Copy, Debug, PartialEq, Eq, Structural)]
pub struct TickNote {
    pub channel: u8,
    pub pitch: u8,
    pub velocity: u8,
    pub start_tick: u32,
    pub end_tick: u32,
    pub eot_tick: u32,
}

/// Program changes at tick 0, one per track, in track order.
pub open spec fn pc_events(tracks: Seq<TrackCfg>) -> Seq<(u32, Seq<u8>)>
    decreases tracks.len(),
{
    if tracks.len() == 0 {
        Seq::empty()
    } else {
        pc_events(tracks.drop_last()).push(
            (0u32, seq![0xC0u8 | tracks.last().channel, tracks.last().program as u8]),
        )
    }
}

/// Note-on at the start tick and note-off (velocity 64) at the end tick of each note.
pub open spec fn note_events(ns: Seq<TickNote>) -> Seq<(u32, Seq<u8>)>
    decreases ns.len(),
{
    if ns.len() == 0 {
        Seq::empty()
    } else {
        let n = ns.last();
        note_events(ns.drop_last())
            .push((n.start_tick, seq![0x90u8 | n.channel, n.pitch, n.velocity]))
            .push((n.end_tick, seq![0x80u8 | n.channel, n.pitch, 64u8]))
    }
}

/// A track on the lead channel exists.
pub open spec fn has_channel(tracks: Seq<TrackCfg>, ch: u8) -> bool {
    exists|i: int| 0 <= i < tracks.len() && tracks[i].channel == ch
}

/// Events of the grid file: tempo, program changes (plus the lead program
/// when no track is on the lead channel), then the notes.
pub open spec fn fmt0_events(notes: Seq<TickNote>, tracks: Seq<TrackCfg>, tempo: u32, lead_inst: u16) -> Seq<(u32, Seq<u8>)> {
    seq![(0u32, tempo_meta(tempo_us(tempo)))] + pc_events(tracks)
        + (if has_channel(tracks, CH_LEAD) { Seq::empty() } else { seq![(0u32, seq![0xC0u8, lead_inst as u8])] })
        + note_events(notes)
}

/// Bytes of the grid file: header, then one track of the events ordered by
/// tick with delta times, closed by an end-of-track event.
pub open spec fn spec_smf_fmt0(notes: Seq<TickNote>, tracks: Seq<TrackCfg>, tempo: u32, lead_inst: u16) -> Seq<u8> {
    smf_header(288) + track_chunk(
        track_events(sort_by_tick(fmt0_events(notes, tracks, tempo, lead_inst)), 0) + vlq(0) + end_of_track(),
    )
}

fn push_event(evs: &mut Vec<SmfEvent>, tick: u32, bytes: Vec<u8>)
    ensures
        models(final(evs)@) == models(old(evs)@).push((tick, bytes@)),
{
    evs.push(SmfEvent { tick, bytes });
    assert(models(final(evs)@) =~= models(old(evs)@).push((tick, bytes@)));
}

fn push_program_changes(evs: &mut Vec<SmfEvent>, tracks: &[TrackCfg])
    ensures
        models(final(evs)@) == models(old(evs)@) + pc_events(tracks@),
{
    let mut i: usize = 0;
    let ghost start = models(evs@);
    while i < tracks.len()
        invariant
            i <= tracks@.len(),
            models(evs@) == start + pc_events(tracks@.subrange(0, i as int)),
        decreases tracks@.len() - i,
    {
        let t = tracks[i];
        push_event(evs, 0, vec![0xC0u8 | t.channel, t.program as u8]);
        proof {
            let s = tracks@.subrange(0, i + 1);
            assert(s.drop_last() == tracks@.subrange(0, i as int));
            assert(s.last() == t);
            assert(models(evs@) =~= start + pc_events(s));
        }
        i = i + 1;
    }
    assert(tracks@.subrange(0, tracks@.len() as int) == tracks@);
}

fn push_note_events(evs: &mut Vec<SmfEvent>, notes: &[TickNote])
    ensures
        models(final(evs)@) == models(old(evs)@) + note_events(notes@),
{
    let mut i: usize = 0;
    let ghost start = models(evs@);
    while i < notes.len()
        invariant
            i <= notes@.len(),
            models(evs@) == start + note_events(notes@.subrange(0, i as int)),
        decreases notes@.len() - i,
    {
        let n = notes[i];
        push_event(evs, n.start_tick, vec![0x90u8 | n.channel, n.pitch, n.velocity]);
        push_event(evs, n.end_tick, vec![0x80u8 | n.channel, n.pitch, 64u8]);
        proof {
            let s = notes@.subrange(0, i + 1);
            assert(s.drop_last() == notes@.subrange(0, i as int));
            assert(s.last() == n);
            assert(models(evs@) =~= start + note_events(s));
        }
        i = i + 1;
    }
    assert(notes@.subrange(0, notes@.len() as int) == notes@);
}

fn has_lead_track(tracks: &[TrackCfg]) -> (r: bool)
    ensures
        r == has_channel(tracks@, CH_LEAD),
{
    let mut i: usize = 0;
    while i < tracks.len()
        invariant
            i <= tracks@.len(),
            forall|k: int| 0 <= k < i ==> tracks@[k].channel != CH_LEAD,
        decreases tracks@.len() - i,
    {
        if tracks[i].channel == CH_LEAD {
            return true;
        }
        i = i + 1;
    }
    false
}

/// Standard MIDI File (format 0, 288 ticks per beat) of a rendered grid:
/// tempo, program changes, the notes, ordered by tick.
pub fn generate_smf_fmt0(notes: &[TickNote], cfg: &RenderCfg) -> (r: Vec<u8>)
    ensures
        r@ == spec_smf_fmt0(notes@, cfg.tracks@, cfg.tempo, cfg.lead_inst),
{
    let mut evs: Vec<SmfEvent> = Vec::new();
    let us = tempo_to_us(cfg.tempo);
    push_event(&mut evs, 0, tempo_meta_bytes(us));
    push_program_changes(&mut evs, cfg.tracks.as_slice());
    let has_lead = has_lead_track(cfg.tracks.as_slice());
    let ghost mid = models(evs@);
    if !has_lead {
        push_event(&mut evs, 0, vec![0xC0u8 | CH_LEAD, cfg.lead_inst as u8]);
    }
    assert(models(evs@) == mid + (if has_channel(cfg.tracks@, CH_LEAD) { Seq::empty() } else { seq![(0u32, seq![0xC0u8, cfg.lead_inst as u8])] })) by {
        if !has_lead {
            assert(0xC0u8 | CH_LEAD == 0xC0u8) by (bit_vector);
        }
        assert(models(evs@) =~= mid + (if has_channel(cfg.tracks@, CH_LEAD) { Seq::empty() } else { seq![(0u32, seq![0xC0u8, cfg.lead_inst as u8])] }));
    }
    push_note_events(&mut evs, notes);
    assert(models(evs@) =~= fmt0_events(notes@, cfg.tracks@, cfg.tempo, cfg.lead_inst));
    let sorted = sort_events(evs);
    let mut track_data: Vec<u8> = Vec::new();
    write_track_events(&mut track_data, &sorted);
    write_vlq(&mut track_data, 0);
    track_data.push(0xFF);
    track_data.push(0x2F);
    track_data.push(0x00);
    let mut smf: Vec<u8> = Vec::new();
    write_header(&mut smf, 288);
    write_track_chunk(&mut smf, &track_data);
    assert(track_data@ =~= track_events(sort_by_tick(fmt0_events(notes@, cfg.tracks@, cfg.tempo, cfg.lead_inst)), 0) + vlq(0) + end_of_track());
    assert(smf@ =~= spec_smf_fmt0(notes@, cfg.tracks@, cfg.tempo, cfg.lead_inst));
    smf
}

/// A note of a drum track on another channel moves to channel 9.
pub open spec fn redirect(n: TickNote, t: TrackCfg) -> TickNote {
    if t.drums && n.channel != CH_DRUMS {
        TickNote { channel: CH_DRUMS, ..n }
    } else {
        n
    }
}

/// The notes that sound: those of muted tracks are dropped, those of drum
/// tracks moved to channel 9; notes of channels without a track are kept.
pub open spec fn audible_notes(ns: Seq<TickNote>, tracks: Seq<TrackCfg>) -> Seq<TickNote>
    decreases ns.len(),
{
    if ns.len() == 0 {
        Seq::empty()
    } else {
        let prev = audible_notes(ns.drop_last(), tracks);
        let n = ns.last();
        match find_track(tracks, n.channel) {
            Some(t) => if t.mute { prev } else { prev.push(redirect(n, t)) },
            None => prev.push(n),
        }
    }
}

/// Events of a file of free notes: tempo, program changes, the audible
/// notes, and the end-of-track at the end of the last audible note (tick
/// 288 when none sounds).
pub open spec fn custom_events(notes: Seq<TickNote>, tracks: Seq<TrackCfg>, tempo: u16) -> Seq<(u32, Seq<u8>)> {
    let a = audible_notes(notes, tracks);
    let last: u32 = if a.len() > 0 { a.last().eot_tick } else { 288 };
    seq![(0u32, tempo_meta(tempo_us(tempo as u32)))] + pc_events(tracks) + note_events(a)
        + seq![(last, end_of_track())]
}

/// Bytes of a file of free notes.
pub open spec fn spec_smf_from_custom(notes: Seq<TickNote>, tracks: Seq<TrackCfg>, tempo: u16) -> Seq<u8> {
    smf_header(288) + track_chunk(track_events(sort_by_tick(custom_events(notes, tracks, tempo)), 0))
}

/// The audible notes (see `audible_notes`).
pub fn audible(notes: &[TickNote], tracks: &[TrackCfg]) -> (r: Vec<TickNote>)
    ensures
        r@ == audible_notes(notes@, tracks@),
{
    let mut out: Vec<TickNote> = Vec::new();
    let mut i: usize = 0;
    while i < notes.len()
        invariant
            i <= notes@.len(),
            out@ == audible_notes(notes@.subrange(0, i as int), tracks@),
        decreases notes@.len() - i,
    {
        let n = notes[i];
        proof {
            let s = notes@.subrange(0, i + 1);
            assert(s.drop_last() == notes@.subrange(0, i as int));
            assert(s.last() == n);
        }
        match track_for_channel(tracks, n.channel) {
            Some(t) => {
                if !t.mute {
                    if t.drums && n.channel != CH_DRUMS {
                        out.push(TickNote { channel: CH_DRUMS, ..n });
                    } else {
                        out.push(n);
                    }
                }
            },
            None => {
                out.push(n);
            },
        }
        i = i + 1;
    }
    assert(notes@.subrange(0, notes@.len() as int) == notes@);
    out
}

/// Standard MIDI File of free notes (piano-roll notes, one track, click
/// track): notes of muted tracks are left out, drum-track notes go to
/// channel 9, and the file ends at the end of the last audible note.
/// The notes come in the order of their start times.
pub fn generate_smf_from_custom(notes: &[TickNote], tracks: &[TrackCfg], tempo: u16) -> (r: Vec<u8>)
    ensures
        r@ == spec_smf_from_custom(notes@, tracks@, tempo),
{
    let mut evs: Vec<SmfEvent> = Vec::new();
    let us = tempo_to_us(tempo as u32);
    push_event(&mut evs, 0, tempo_meta_bytes(us));
    push_program_changes(&mut evs, tracks);
    let a = audible(notes, tracks);
    push_note_events(&mut evs, a.as_slice());
    let last: u32 = if a.len() > 0 { a[a.len() - 1].eot_tick } else { 288 };
    push_event(&mut evs, last, vec![0xFFu8, 0x2Fu8, 0x00u8]);
    assert(models(evs@) =~= custom_events(notes@, tracks@, tempo));
    let sorted = sort_events(evs);
    let mut smf: Vec<u8> = Vec::new();
    write_header(&mut smf, 288);
    let mut track_data: Vec<u8> = Vec::new();
    write_track_events(&mut track_data, &sorted);
    write_track_chunk(&mut smf, &track_data);
    assert(track_data@ =~= track_events(sort_by_tick(custom_events(notes@, tracks@, tempo)), 0));
    assert(smf@ =~= spec_smf_from_custom(notes@, tracks@, tempo));
    smf
}

/// Tracks rendered one by one: the unmuted ones in order, plus a default
/// drum track on channel 9 when drum notes exist and no track is on 9.
pub open spec fn active_tracks(tracks: Seq<TrackCfg>) -> Seq<TrackCfg>
    decreases tracks.len(),
{
    if tracks.len() == 0 {
        Seq::empty()
    } else if tracks.last().mute {
        active_tracks(tracks.drop_last())
    } else {
        active_tracks(tracks.drop_last()).push(tracks.last())
    }
}

/// Tracks rendered one by one (see `render_tracks_list`).
pub open spec fn spec_render_tracks_list(tracks: Seq<TrackCfg>, note_channels: Seq<u8>) -> Seq<TrackCfg> {
    let active = active_tracks(tracks);
    if !has_channel(active, CH_DRUMS) && note_channels.contains(CH_DRUMS) {
        active.push(TrackCfg { channel: CH_DRUMS, program: 1, volume: 127, ..default_track(CH_DRUMS, 1, 127) })
    } else {
        active
    }
}

/// Tracks to render separately; `note_channels` are the channels of the notes.
pub fn render_tracks_list(cfg: &RenderCfg, note_channels: &[u8]) -> (r: Vec<TrackCfg>)
    ensures
        r@ == spec_render_tracks_list(cfg.tracks@, note_channels@),
{
    let mut out: Vec<TrackCfg> = Vec::new();
    let mut i: usize = 0;
    let ghost tr = cfg.tracks@;
    while i < cfg.tracks.len()
        invariant
            tr == cfg.tracks@,
            i <= tr.len(),
            out@ == active_tracks(tr.subrange(0, i as int)),
        decreases tr.len() - i,
    {
        let t = cfg.tracks[i];
        proof {
            let s = tr.subrange(0, i + 1);
            assert(s.drop_last() == tr.subrange(0, i as int));
            assert(s.last() == t);
        }
        if !t.mute {
            out.push(t);
        }
        i = i + 1;
    }
    assert(tr.subrange(0, tr.len() as int) == tr);
    let mut has9 = false;
    let mut k: usize = 0;
    while k < out.len()
        invariant
            k <= out@.len(),
            has9 == exists|j: int| 0 <= j < k && out@[j].channel == CH_DRUMS,
        decreases out@.len() - k,
    {
        if out[k].channel == CH_DRUMS {
            has9 = true;
        }
        k = k + 1;
    }
    let mut drum_notes = false;
    let mut m: usize = 0;
    while m < note_channels.len()
        invariant
            m <= note_channels@.len(),
            drum_notes == exists|j: int| 0 <= j < m && note_channels@[j] == CH_DRUMS,
        decreases note_channels@.len() - m,
    {
        if note_channels[m] == CH_DRUMS {
            drum_notes = true;
        }
        m = m + 1;
    }
    if !has9 && drum_notes {
        out.push(TrackCfg { channel: CH_DRUMS, program: 1, volume: 127, mute: false, drums: false, bank_msb: 0, bank_lsb: 0, fx: Fx::none() });
    }
    out
}

/// Beats per bar of a time signature: the number before the first `/`
/// (4 when it does not parse as an unsigned 32-bit integer).
pub open spec fn spec_beats_per_bar(sig: Seq<char>) -> u32 {
    let k = first_index_of(sig, '/');
    let top = if k < 0 { sig } else { sig.subrange(0, k) };
    match parse_unsigned(top, u32::MAX as nat) {
        Some(v) => v as u32,
        None => 4,
    }
}

/// Index of the first occurrence of `c`, or -1.
pub open spec fn first_index_of(s: Seq<char>, c: char) -> int
    decreases s.len(),
{
    if s.len() == 0 {
        -1
    } else if s.last() == c && first_index_of(s.drop_last(), c) < 0 {
        s.len() - 1
    } else {
        first_index_of(s.drop_last(), c)
    }
}

/// Position of the first `c` in `v`, if any.
pub fn find_char(v: &Vec<char>, c: char) -> (r: Option<usize>)
    ensures
        match r {
            Some(k) => first_index_of(v@, c) == k as int,
            None => first_index_of(v@, c) == -1,
        },
        first_index_of(v@, c) < v@.len(),
        first_index_of(v@, c) >= -1,
{
    let mut i: usize = 0;
    while i < v.len()
        invariant
            i <= v@.len(),
            first_index_of(v@.subrange(0, i as int), c) == -1,
            forall|j: int| 0 <= j < i ==> v@[j] != c,
        decreases v@.len() - i,
    {
        proof {
            let s = v@.subrange(0, i + 1);
            assert(s.drop_last() == v@.subrange(0, i as int));
        }
        if v[i] == c {
            proof {
                lemma_first_index_prefix(v@, c, i as int);
            }
            return Some(i);
        }
        i = i + 1;
    }
    assert(v@.subrange(0, v@.len() as int) == v@);
    None
}

proof fn lemma_first_index_prefix(s: Seq<char>, c: char, i: int)
    requires
        0 <= i < s.len(),
        s[i] == c,
        forall|j: int| 0 <= j < i ==> s[j] != c,
    ensures
        first_index_of(s, c) == i,
    decreases s.len(),
{
    if s.len() - 1 > i {
        lemma_first_index_prefix(s.drop_last(), c, i);
    } else {
        lemma_first_index_none(s.drop_last(), c);
    }
}

proof fn lemma_first_index_none(s: Seq<char>, c: char)
    requires
        forall|j: int| 0 <= j < s.len() ==> s[j] != c,
    ensures
        first_index_of(s, c) == -1,
    decreases s.len(),
{
    if s.len() > 0 {
        lemma_first_index_none(s.drop_last(), c);
    }
}

/// Beats per bar of a time signature such as "3/4" (4 when the part
/// before `/` is not a number).
pub fn beats_per_bar(sig: &str) -> (r: u32)
    ensures
        r == spec_beats_per_bar(sig@),
{
    let v = chars_of(sig);
    let top: Vec<char> = match find_char(&v, '/') {
        Some(k) => {
            let mut t: Vec<char> = Vec::new();
            let mut i: usize = 0;
            while i < k
                invariant
                    k <= v@.len(),
                    i <= k,
                    t@ == v@.subrange(0, i as int),
                decreases k - i,
            {
                t.push(v[i]);
                proof {
                    assert(v@.subrange(0, i + 1) == v@.subrange(0, i as int).push(v@[i as int]));
                }
                i = i + 1;
            }
            t
        },
        None => v,
    };
    match parse_unsigned_chars(&top, 0xFFFF_FFFF) {
        Some(x) => x as u32,
        None => 4,
    }
}


/// Beat `b` of the click track is accented: accent on, first beat of a bar.
pub open spec fn click_accent(b: nat, beats_per_bar: u64, accent: bool) -> bool {
    accent && b % (if beats_per_bar == 0 { 1nat } else { beats_per_bar as nat }) == 0
}

/// The click of beat `b`: the GM metronome on the drum channel (note 34 when
/// accented, 33 otherwise), or a melodic sound on channel 15 (woodblock 72,
/// agogo 74, taiko 55); velocity 127 when accented, 120 otherwise; it starts
/// on the beat and lasts 0.15 beat (43 ticks); ticks past the 32-bit range
/// are held at its end.
pub open spec fn click_note(b: nat, beats_per_bar: u64, accent: bool, sound: u8) -> TickNote {
    let acc = click_accent(b, beats_per_bar, accent);
    let (channel, pitch) = if sound == 0 {
        (9u8, if acc { 34u8 } else { 33u8 })
    } else if sound == 1 {
        (15u8, 72u8)
    } else if sound == 2 {
        (15u8, 74u8)
    } else {
        (15u8, 55u8)
    };
    TickNote {
        channel,
        pitch,
        velocity: if acc { 127u8 } else { 120u8 },
        start_tick: sat_tick((288 * b) as int),
        end_tick: sat_tick((288 * b + 43) as int),
        eot_tick: sat_tick((288 * b + 47) as int),
    }
}

/// A tick count held at the end of the 32-bit range.
pub open spec fn sat_tick(t: int) -> u32 {
    if t > u32::MAX { u32::MAX } else { t as u32 }
}

fn sat_tick_of(t: u128) -> (r: u32)
    ensures
        r == sat_tick(t as int),
{
    if t > 0xFFFF_FFFF { 0xFFFF_FFFF } else { t as u32 }
}

/// The clicks of the first `total` beats.
pub open spec fn click_notes(total: nat, beats_per_bar: u64, accent: bool, sound: u8) -> Seq<TickNote> {
    Seq::new(total, |b: int| click_note(b as nat, beats_per_bar, accent, sound))
}

/// The track that sets the melodic click sound (program 115, 114 or 116 on
/// channel 15); none for the GM metronome.
pub open spec fn click_tracks(sound: u8) -> Seq<TrackCfg> {
    if sound == 1 {
        seq![default_track(15, 115, 127)]
    } else if sound == 2 {
        seq![default_track(15, 114, 127)]
    } else if sound == 3 {
        seq![default_track(15, 116, 127)]
    } else {
        Seq::empty()
    }
}

/// The click track of `total_beats` beats (the caller rounds the length of
/// the piece up to whole beats), accented on the first beat of each bar.
pub fn generate_click_smf(tempo: u16, beats_per_bar: u64, total_beats: u64, accent: bool, sound: u8) -> (r: Vec<u8>)
    ensures
        r@ == spec_smf_from_custom(click_notes(total_beats as nat, beats_per_bar, accent, sound), click_tracks(sound), tempo),
{
    let bpb: u64 = if beats_per_bar == 0 { 1 } else { beats_per_bar };
    let mut notes: Vec<TickNote> = Vec::new();
    let mut b: u64 = 0;
    while b < total_beats
        invariant
            b <= total_beats,
            bpb == (if beats_per_bar == 0 { 1u64 } else { beats_per_bar }),
            notes@ == click_notes(b as nat, beats_per_bar, accent, sound),
        decreases total_beats - b,
    {
        let acc = accent && b % bpb == 0;
        let (channel, pitch): (u8, u8) = if sound == 0 {
            (9u8, if acc { 34u8 } else { 33u8 })
        } else if sound == 1 {
            (15u8, 72u8)
        } else if sound == 2 {
            (15u8, 74u8)
        } else {
            (15u8, 55u8)
        };
        let t: u128 = 288 * (b as u128);
        let n = TickNote {
            channel,
            pitch,
            velocity: if acc { 127u8 } else { 120u8 },
            start_tick: sat_tick_of(t),
            end_tick: sat_tick_of(t + 43),
            eot_tick: sat_tick_of(t + 47),
        };
        notes.push(n);
        proof {
            assert(n == click_note(b as nat, beats_per_bar, accent, sound));
            assert(notes@ =~= click_notes((b + 1) as nat, beats_per_bar, accent, sound));
        }
        b = b + 1;
    }
    let tracks: Vec<TrackCfg> = if sound == 1 {
        vec![track(15, 115, 127)]
    } else if sound == 2 {
        vec![track(15, 114, 127)]
    } else if sound == 3 {
        vec![track(15, 116, 127)]
    } else {
        Vec::new()
    };
    assert(tracks@ =~= click_tracks(sound));
    generate_smf_from_custom(notes.as_slice(), tracks.as_slice(), tempo)
}

} // verus!
