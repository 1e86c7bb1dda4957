//! Live playback of a chord grid: what is sent when a chord starts, at each
//! quarter-beat step inside it, and at the end of the sequence. The player
//! keeps the clock (it sleeps between steps and measures the beat); these
//! functions decide the MIDI messages and the voices left sounding.
use vstd::prelude::*;
use crate::midi::{LiveTrack, TRACK_LEAD, TRACK_BASS, TRACK_STR, TRACK_DRUMS, TRACK_ACCENT};
use crate::patterns::{sc, spec_sc, live_drum_hits, spec_live_drum_hits, PAT_REGGAE};
use crate::walking::MIN_NOTE;
use crate::mpe::msgs_view;

verus! {

/// Note-on `[0x90 | ch, n, v]` (a velocity of 0 is a note-off).
pub open spec fn note_msg(ch: u8, n: u8, v: u8) -> Seq<u8> {
    seq![0x90u8 | ch, n, v]
}

/// Control change `[0xB0 | ch, ctl, v]`.
pub open spec fn cc_msg(ch: u8, ctl: u8, v: u8) -> Seq<u8> {
    seq![0xB0u8 | ch, ctl, v]
}

/// All notes off (CC123) on the channels in use: 0, 2, 3, 4 and 9.
pub open spec fn reset_msgs() -> Seq<Seq<u8>> {
    seq![cc_msg(0, 123, 0), cc_msg(2, 123, 0), cc_msg(3, 123, 0), cc_msg(4, 123, 0), cc_msg(9, 123, 0)]
}

/// Velocity of a track note: the track volume scaled by the master volume,
/// then scaled again when the note is sent.
pub open spec fn track_vel(t: LiveTrack, mv: u8) -> u8 {
    spec_sc(spec_sc(t.volume, mv), mv)
}

/// Note-ons of `notes` on `ch` at velocity `v`, in order.
pub open spec fn ons(ch: u8, notes: Seq<u8>, v: u8) -> Seq<Seq<u8>> {
    notes.map_values(|n: u8| note_msg(ch, n, v))
}

/// Note-offs of `notes` on `ch`, in order.
pub open spec fn offs(ch: u8, notes: Seq<u8>) -> Seq<Seq<u8>> {
    ons(ch, notes, 0)
}

/// Program changes that set up the tracks: the standard kit (program 1) on
/// the drum channel, each track's program (low byte) elsewhere.
pub open spec fn setup_msgs(tracks: Seq<LiveTrack>) -> Seq<Seq<u8>>
    decreases tracks.len(),
{
    if tracks.len() == 0 {
        Seq::empty()
    } else {
        let t = tracks.last();
        let m = if t.channel == 9 { seq![0xC9u8, 1u8] } else { seq![0xC0u8 | t.channel, (t.program % 256) as u8] };
        setup_msgs(tracks.drop_last()).push(m)
    }
}

/// The messages of the notes sounding, per voice.
pub struct Voices {
    pub prev_nappe: Vec<u8>,
    pub prev_lead: Vec<u8>,
    pub prev_accent: Vec<u8>,
}

impl Voices {
    /// No voice sounding.
    pub fn new() -> (r: Voices)
        ensures
            r.prev_nappe@ == Seq::<u8>::empty(),
            r.prev_lead@ == Seq::<u8>::empty(),
            r.prev_accent@ == Seq::<u8>::empty(),
    {
        Voices { prev_nappe: Vec::new(), prev_lead: Vec::new(), prev_accent: Vec::new() }
    }
}

/// Playback state inside one chord.
pub struct ChordState {
    /// The chord's notes, root first.
    pub notes: Vec<u8>,
    /// The walking-bass line of the chord (one note per beat).
    pub walking_notes: [u8; 4],
    /// The chord lasts more than one beat (the accent plays only then).
    pub long_chord: bool,
    /// Number of quarter-beat steps already played.
    pub idx: u64,
    /// Last beat the drums played (None before the first).
    pub last_b_drums: Option<u64>,
    /// Last beat the bass played.
    pub last_b_bass: u64,
    /// Bass note sounding.
    pub prev_bass_note: u8,
}

/// Appends note messages for every note of `notes`.
fn push_notes(out: &mut Vec<Vec<u8>>, ch: u8, notes: &Vec<u8>, v: u8)
    ensures
        msgs_view(final(out)@) == msgs_view(old(out)@) + ons(ch, notes@, v),
{
    let ghost start = msgs_view(out@);
    let mut i: usize = 0;
    while i < notes.len()
        invariant
            i <= notes@.len(),
            msgs_view(out@) == start + ons(ch, notes@.subrange(0, i as int), v),
        decreases notes@.len() - i,
    {
        let ghost before = out@;
        out.push(vec![0x90u8 | ch, notes[i], v]);
        proof {
            assert(ons(ch, notes@.subrange(0, i + 1), v) =~= ons(ch, notes@.subrange(0, i as int), v).push(note_msg(ch, notes@[i as int], v)));
            assert(msgs_view(out@) =~= msgs_view(before).push(note_msg(ch, notes@[i as int], v)));
        }
        i = i + 1;
    }
    assert(notes@.subrange(0, notes@.len() as int) =~= notes@);
}

/// All notes off on the channels in use.
pub fn reset_messages() -> (r: Vec<Vec<u8>>)
    ensures
        msgs_view(r@) == reset_msgs(),
{
    let r = vec![vec![0xB0u8 | 0u8, 123u8, 0u8], vec![0xB0u8 | 2u8, 123u8, 0u8], vec![0xB0u8 | 3u8, 123u8, 0u8], vec![0xB0u8 | 4u8, 123u8, 0u8], vec![0xB0u8 | 9u8, 123u8, 0u8]];
    assert(msgs_view(r@) =~= reset_msgs());
    r
}

/// Program changes that set up the live tracks.
pub fn setup_messages(tracks: &[LiveTrack]) -> (r: Vec<Vec<u8>>)
    ensures
        msgs_view(r@) == setup_msgs(tracks@),
{
    let mut out: Vec<Vec<u8>> = Vec::new();
    let mut i: usize = 0;
    while i < tracks.len()
        invariant
            i <= tracks@.len(),
            msgs_view(out@) == setup_msgs(tracks@.subrange(0, i as int)),
        decreases tracks@.len() - i,
    {
        let t = tracks[i];
        let ghost before = out@;
        if t.channel == 9 {
            out.push(vec![0xC9u8, 1u8]);
        } else {
            out.push(vec![0xC0u8 | t.channel, (t.program % 256) as u8]);
        }
        proof {
            let s = tracks@.subrange(0, i + 1);
            assert(s.drop_last() =~= tracks@.subrange(0, i as int));
            assert(msgs_view(out@) =~= setup_msgs(s));
        }
        i = i + 1;
    }
    assert(tracks@.subrange(0, tracks@.len() as int) =~= tracks@);
    out
}

/// Messages when a chord (or a silence) follows another one: all notes off,
/// then all sound off on the drum channel; nothing for the first chord.
pub open spec fn cut_msgs(first: bool) -> Seq<Seq<u8>> {
    if first { Seq::empty() } else { reset_msgs().push(cc_msg(9, 120, 0)) }
}

/// Messages cutting what the previous chord left sounding.
pub fn chord_cut_messages(first: bool) -> (r: Vec<Vec<u8>>)
    ensures
        msgs_view(r@) == cut_msgs(first),
{
    if first {
        let r: Vec<Vec<u8>> = Vec::new();
        assert(msgs_view(r@) =~= cut_msgs(first));
        return r;
    }
    let mut r = reset_messages();
    let ghost before = r@;
    r.push(vec![0xB0u8 | 9u8, 120u8, 0u8]);
    assert(msgs_view(r@) =~= msgs_view(before).push(cc_msg(9, 120, 0)));
    r
}

/// First bass note of a chord: the first note of the walking line when
/// walking, the root otherwise.
pub open spec fn first_bass(notes: Seq<u8>, wn: Seq<u8>, walking: bool) -> u8 {
    if walking { wn[0] } else { notes[0] }
}

/// The pads are silent on long chords in reggae.
pub open spec fn skips_nappe(pattern: u8, long_chord: bool) -> bool {
    pattern == PAT_REGGAE && long_chord
}

/// Messages at the start of a non-empty chord: the cut of the previous
/// chord, the first bass note (track not muted), then the pads: the
/// previous pad notes off and the chord tones (all notes but the root) on.
pub open spec fn begin_msgs(notes: Seq<u8>, wn: Seq<u8>, first: bool, walking: bool, pattern: u8, long_chord: bool,
    tracks: Seq<LiveTrack>, mv: u8, prev_nappe: Seq<u8>) -> Seq<Seq<u8>> {
    let tb = tracks[TRACK_BASS as int];
    let ts = tracks[TRACK_STR as int];
    cut_msgs(first)
        + (if !tb.mute { seq![note_msg(tb.channel, first_bass(notes, wn, walking), track_vel(tb, mv))] } else { Seq::empty() })
        + (if !ts.mute && !skips_nappe(pattern, long_chord) {
            offs(ts.channel, prev_nappe) + ons(ts.channel, notes.subrange(1, notes.len() as int), track_vel(ts, mv))
        } else {
            Seq::empty()
        })
}

/// Starts a chord of `notes` (root first) whose walking line is
/// `walking_notes`: returns its playback state and the messages to send.
pub fn chord_begin(voices: &mut Voices, notes: &[u8], walking_notes: [u8; 4], first: bool, walking: bool,
    pattern: u8, long_chord: bool, tracks: &[LiveTrack], mv: u8) -> (r: (ChordState, Vec<Vec<u8>>))
    requires
        notes@.len() >= 1,
        tracks@.len() == 5,
    ensures
        msgs_view(r.1@) == begin_msgs(notes@, walking_notes@, first, walking, pattern, long_chord, tracks@, mv, old(voices).prev_nappe@),
        r.0.notes@ == notes@,
        r.0.walking_notes == walking_notes,
        r.0.long_chord == long_chord,
        r.0.idx == 0,
        r.0.last_b_drums is None,
        r.0.last_b_bass == 0,
        r.0.prev_bass_note == (if !tracks@[TRACK_BASS as int].mute { first_bass(notes@, walking_notes@, walking) } else { 0u8 }),
        final(voices).prev_nappe@ == (if !tracks@[TRACK_STR as int].mute && !skips_nappe(pattern, long_chord) {
            notes@.subrange(1, notes@.len() as int)
        } else {
            old(voices).prev_nappe@
        }),
        final(voices).prev_lead@ == old(voices).prev_lead@,
        final(voices).prev_accent@ == old(voices).prev_accent@,
{
    let mut out = chord_cut_messages(first);
    let tb = tracks[TRACK_BASS];
    let ts = tracks[TRACK_STR];
    let mut prev_bass_note: u8 = 0;
    let ghost m0 = msgs_view(out@);
    if !tb.mute {
        let bvol = sc(tb.volume, mv);
        let bass_note = if walking { walking_notes[0] } else { notes[0] };
        out.push(vec![0x90u8 | tb.channel, bass_note, sc(bvol, mv)]);
        prev_bass_note = bass_note;
    }
    let ghost m1 = msgs_view(out@);
    assert(m1 =~= m0 + (if !tb.mute { seq![note_msg(tb.channel, first_bass(notes@, walking_notes@, walking), track_vel(tb, mv))] } else { Seq::empty() }));
    let mut tones: Vec<u8> = Vec::new();
    let mut i: usize = 1;
    while i < notes.len()
        invariant
            1 <= i <= notes@.len(),
            tones@ == notes@.subrange(1, i as int),
        decreases notes@.len() - i,
    {
        tones.push(notes[i]);
        proof {
            assert(notes@.subrange(1, i + 1) =~= notes@.subrange(1, i as int).push(notes@[i as int]));
        }
        i = i + 1;
    }
    let skip_nappe = pattern == PAT_REGGAE && long_chord;
    if !ts.mute && !skip_nappe {
        push_notes(&mut out, ts.channel, &voices.prev_nappe, 0);
        let svol = sc(ts.volume, mv);
        push_notes(&mut out, ts.channel, &tones, sc(svol, mv));
        voices.prev_nappe = tones;
    }
    proof {
        assert(msgs_view(out@) =~= begin_msgs(notes@, walking_notes@, first, walking, pattern, long_chord, tracks@, mv, old(voices).prev_nappe@));
    }
    let mut copy: Vec<u8> = Vec::new();
    let mut k: usize = 0;
    while k < notes.len()
        invariant
            k <= notes@.len(),
            copy@ == notes@.subrange(0, k as int),
        decreases notes@.len() - k,
    {
        copy.push(notes[k]);
        proof {
            assert(notes@.subrange(0, k + 1) =~= notes@.subrange(0, k as int).push(notes@[k as int]));
        }
        k = k + 1;
    }
    assert(notes@.subrange(0, notes@.len() as int) =~= notes@);
    let st = ChordState {
        notes: copy,
        walking_notes,
        long_chord,
        idx: 0,
        last_b_drums: None,
        last_b_bass: 0,
        prev_bass_note,
    };
    (st, out)
}

/// Drum messages: each hit as a note-on on the drum channel.
pub open spec fn drum_msgs(hits: Seq<(u8, u8)>) -> Seq<Seq<u8>> {
    hits.map_values(|h: (u8, u8)| note_msg(9, h.0, h.1))
}

/// The drums of a step: on the first step of a new beat the beat's hits,
/// near the middle of the beat the eighth's hits (track not muted).
pub open spec fn tick_drums(last: Option<u64>, beat: u64, near_eighth: bool, pattern: u8, bars: u64, t: LiveTrack, mv: u8) -> Seq<Seq<u8>> {
    if t.mute {
        Seq::empty()
    } else {
        let dv = spec_sc(t.volume, mv);
        let new_beat = last is None || beat > last->0;
        (if new_beat { drum_msgs(spec_live_drum_hits(beat, pattern, true, false, bars, dv, 127)) } else { Seq::empty() })
            + (if near_eighth { drum_msgs(spec_live_drum_hits(beat, pattern, false, true, bars, dv, 127)) } else { Seq::empty() })
    }
}

/// Bass note of a beat: the walking note of the beat within the bar of
/// four when walking, the root otherwise.
pub open spec fn beat_bass(notes: Seq<u8>, wn: Seq<u8>, walking: bool, beat: u64) -> u8 {
    if walking { wn[(beat % 4) as int] } else { notes[0] }
}

/// The bass of a step: on a new beat, the previous bass note off and the
/// beat's note on (track not muted).
pub open spec fn tick_bass(last: u64, prev: u8, beat: u64, notes: Seq<u8>, wn: Seq<u8>, walking: bool, t: LiveTrack, mv: u8) -> Seq<Seq<u8>> {
    if !t.mute && beat > last {
        seq![note_msg(t.channel, prev, 0), note_msg(t.channel, beat_bass(notes, wn, walking, beat), track_vel(t, mv))]
    } else {
        Seq::empty()
    }
}

/// The lead (skank) of a step: at the fourth quarter of a beat the held
/// notes off; at the third quarter the chord on (track not muted).
pub open spec fn tick_lead(idx: u64, prev: Seq<u8>, notes: Seq<u8>, t: LiveTrack, mv: u8) -> Seq<Seq<u8>> {
    (if idx % 4 == 3 && prev.len() > 0 { offs(t.channel, prev) } else { Seq::empty() })
        + (if idx % 4 == 2 && !t.mute { ons(t.channel, notes, track_vel(t, mv)) } else { Seq::empty() })
}

/// Lead notes held after a step.
pub open spec fn lead_after(idx: u64, prev: Seq<u8>, notes: Seq<u8>, t: LiveTrack) -> Seq<u8> {
    if idx % 4 == 2 && !t.mute { notes } else if idx % 4 == 3 && prev.len() > 0 { Seq::empty() } else { prev }
}

/// The accent (beats 2 and 4) of a step, on chords longer than a beat:
/// released at step 5 of 8, struck at step 4 of 8 (track not muted).
pub open spec fn tick_accent(idx: u64, long_chord: bool, prev: Seq<u8>, notes: Seq<u8>, t: LiveTrack, mv: u8) -> Seq<Seq<u8>> {
    if !long_chord {
        Seq::empty()
    } else {
        (if idx % 8 == 5 && prev.len() > 0 { offs(t.channel, prev) } else { Seq::empty() })
            + (if idx % 8 == 4 && !t.mute { ons(t.channel, notes, track_vel(t, mv)) } else { Seq::empty() })
    }
}

/// Accent notes held after a step.
pub open spec fn accent_after(idx: u64, long_chord: bool, prev: Seq<u8>, notes: Seq<u8>, t: LiveTrack) -> Seq<u8> {
    if !long_chord {
        prev
    } else if idx % 8 == 4 && !t.mute {
        notes
    } else if idx % 8 == 5 && prev.len() > 0 {
        Seq::empty()
    } else {
        prev
    }
}

/// All the messages of one step, in sending order: drums, bass, lead, accent.
pub open spec fn tick_msgs(st_idx: u64, last_d: Option<u64>, last_b: u64, prev_bass: u8, notes: Seq<u8>, wn: Seq<u8>,
    long_chord: bool, prev_lead: Seq<u8>, prev_accent: Seq<u8>, beat: u64, near_eighth: bool, pattern: u8, bars: u64,
    walking: bool, tracks: Seq<LiveTrack>, mv: u8) -> Seq<Seq<u8>> {
    tick_drums(last_d, beat, near_eighth, pattern, bars, tracks[TRACK_DRUMS as int], mv)
        + tick_bass(last_b, prev_bass, beat, notes, wn, walking, tracks[TRACK_BASS as int], mv)
        + tick_lead(st_idx, prev_lead, notes, tracks[TRACK_LEAD as int], mv)
        + tick_accent(st_idx, long_chord, prev_accent, notes, tracks[TRACK_ACCENT as int], mv)
}

fn copy_notes(v: &Vec<u8>) -> (r: Vec<u8>)
    ensures
        r@ == v@,
{
    let mut out: Vec<u8> = Vec::new();
    let mut i: usize = 0;
    while i < v.len()
        invariant
            i <= v@.len(),
            out@ == v@.subrange(0, i as int),
        decreases v@.len() - i,
    {
        out.push(v[i]);
        proof {
            assert(v@.subrange(0, i + 1) =~= v@.subrange(0, i as int).push(v@[i as int]));
        }
        i = i + 1;
    }
    assert(v@.subrange(0, v@.len() as int) =~= v@);
    out
}

fn push_drum_hits(out: &mut Vec<Vec<u8>>, hits: &Vec<(u8, u8)>)
    ensures
        msgs_view(final(out)@) == msgs_view(old(out)@) + drum_msgs(hits@),
{
    let ghost start = msgs_view(out@);
    let mut i: usize = 0;
    while i < hits.len()
        invariant
            i <= hits@.len(),
            msgs_view(out@) == start + drum_msgs(hits@.subrange(0, i as int)),
        decreases hits@.len() - i,
    {
        let ghost before = out@;
        let h = hits[i];
        out.push(vec![0x90u8 | 9u8, h.0, h.1]);
        proof {
            assert(drum_msgs(hits@.subrange(0, i + 1)) =~= drum_msgs(hits@.subrange(0, i as int)).push(note_msg(9, h.0, h.1)));
            assert(msgs_view(out@) =~= msgs_view(before).push(note_msg(9, h.0, h.1)));
        }
        i = i + 1;
    }
    assert(hits@.subrange(0, hits@.len() as int) =~= hits@);
}

/// One quarter-beat step of a chord at beat `beat` (counted from the start
/// of the chord); `near_eighth` tells that the step falls near the middle of
/// the beat. Returns the messages and advances the state.
pub fn chord_tick(st: &mut ChordState, voices: &mut Voices, beat: u64, near_eighth: bool, pattern: u8, bars: u64,
    walking: bool, tracks: &[LiveTrack], mv: u8) -> (r: Vec<Vec<u8>>)
    requires
        bars > 0,
        tracks@.len() == 5,
        old(st).notes@.len() >= 1,
        old(st).idx < u64::MAX,
    ensures
        msgs_view(r@) == tick_msgs(old(st).idx, old(st).last_b_drums, old(st).last_b_bass, old(st).prev_bass_note,
            old(st).notes@, old(st).walking_notes@, old(st).long_chord, old(voices).prev_lead@, old(voices).prev_accent@,
            beat, near_eighth, pattern, bars, walking, tracks@, mv),
        final(st).idx == old(st).idx + 1,
        final(st).notes@ == old(st).notes@,
        final(st).walking_notes == old(st).walking_notes,
        final(st).long_chord == old(st).long_chord,
        final(st).last_b_drums == (if !tracks@[TRACK_DRUMS as int].mute && (old(st).last_b_drums is None || beat > old(st).last_b_drums->0) {
            Some(beat)
        } else {
            old(st).last_b_drums
        }),
        final(st).last_b_bass == (if !tracks@[TRACK_BASS as int].mute && beat > old(st).last_b_bass { beat } else { old(st).last_b_bass }),
        final(st).prev_bass_note == (if !tracks@[TRACK_BASS as int].mute && beat > old(st).last_b_bass {
            beat_bass(old(st).notes@, old(st).walking_notes@, walking, beat)
        } else {
            old(st).prev_bass_note
        }),
        final(voices).prev_lead@ == lead_after(old(st).idx, old(voices).prev_lead@, old(st).notes@, tracks@[TRACK_LEAD as int]),
        final(voices).prev_accent@ == accent_after(old(st).idx, old(st).long_chord, old(voices).prev_accent@, old(st).notes@, tracks@[TRACK_ACCENT as int]),
        final(voices).prev_nappe@ == old(voices).prev_nappe@,
{
    let mut out: Vec<Vec<u8>> = Vec::new();
    let td = tracks[TRACK_DRUMS];
    let tb = tracks[TRACK_BASS];
    let tl = tracks[TRACK_LEAD];
    let ta = tracks[TRACK_ACCENT];
    // Drums.
    if !td.mute {
        let dv = sc(td.volume, mv);
        let new_beat = match st.last_b_drums {
            None => true,
            Some(l) => beat > l,
        };
        if new_beat {
            let hits = live_drum_hits(beat, pattern, true, false, bars, dv, 127);
            push_drum_hits(&mut out, &hits);
            st.last_b_drums = Some(beat);
        }
        if near_eighth {
            let hits = live_drum_hits(beat, pattern, false, true, bars, dv, 127);
            push_drum_hits(&mut out, &hits);
        }
    }
    let ghost m_drums = msgs_view(out@);
    assert(m_drums =~= tick_drums(old(st).last_b_drums, beat, near_eighth, pattern, bars, td, mv));
    // Bass.
    if !tb.mute && beat > st.last_b_bass {
        let bvol = sc(tb.volume, mv);
        let bass_note = if walking { st.walking_notes[(beat % 4) as usize] } else { st.notes[0] };
        out.push(vec![0x90u8 | tb.channel, st.prev_bass_note, 0u8]);
        out.push(vec![0x90u8 | tb.channel, bass_note, sc(bvol, mv)]);
        st.prev_bass_note = bass_note;
        st.last_b_bass = beat;
    }
    let ghost m_bass = msgs_view(out@);
    assert(m_bass =~= m_drums + tick_bass(old(st).last_b_bass, old(st).prev_bass_note, beat, old(st).notes@, old(st).walking_notes@, walking, tb, mv));
    // Lead.
    let idx = st.idx;
    if idx % 4 == 3 && voices.prev_lead.len() > 0 {
        push_notes(&mut out, tl.channel, &voices.prev_lead, 0);
        voices.prev_lead = Vec::new();
    }
    if idx % 4 == 2 && !tl.mute {
        let lvol = sc(tl.volume, mv);
        push_notes(&mut out, tl.channel, &st.notes, sc(lvol, mv));
        voices.prev_lead = copy_notes(&st.notes);
    }
    let ghost m_lead = msgs_view(out@);
    assert(m_lead =~= m_bass + tick_lead(idx, old(voices).prev_lead@, old(st).notes@, tl, mv));
    // Accent.
    if st.long_chord {
        if idx % 8 == 5 && voices.prev_accent.len() > 0 {
            push_notes(&mut out, ta.channel, &voices.prev_accent, 0);
            voices.prev_accent = Vec::new();
        }
        if idx % 8 == 4 && !ta.mute {
            let avol = sc(ta.volume, mv);
            push_notes(&mut out, ta.channel, &st.notes, sc(avol, mv));
            voices.prev_accent = copy_notes(&st.notes);
        }
    }
    assert(msgs_view(out@) =~= m_lead + tick_accent(idx, old(st).long_chord, old(voices).prev_accent@, old(st).notes@, ta, mv));
    st.idx = idx + 1;
    out
}

/// Note-offs of every voice still sounding (pads, lead, accent).
pub open spec fn end_msgs(tracks: Seq<LiveTrack>, prev_nappe: Seq<u8>, prev_lead: Seq<u8>, prev_accent: Seq<u8>) -> Seq<Seq<u8>> {
    offs(tracks[TRACK_STR as int].channel, prev_nappe) + offs(tracks[TRACK_LEAD as int].channel, prev_lead)
        + offs(tracks[TRACK_ACCENT as int].channel, prev_accent)
}

/// Messages at the end of a pass over the sequence.
pub fn seq_end(voices: &Voices, tracks: &[LiveTrack]) -> (r: Vec<Vec<u8>>)
    requires
        tracks@.len() == 5,
    ensures
        msgs_view(r@) == end_msgs(tracks@, voices.prev_nappe@, voices.prev_lead@, voices.prev_accent@),
{
    let mut out: Vec<Vec<u8>> = Vec::new();
    push_notes(&mut out, tracks[TRACK_STR].channel, &voices.prev_nappe, 0);
    push_notes(&mut out, tracks[TRACK_LEAD].channel, &voices.prev_lead, 0);
    push_notes(&mut out, tracks[TRACK_ACCENT].channel, &voices.prev_accent, 0);
    assert(msgs_view(out@) =~= end_msgs(tracks@, voices.prev_nappe@, voices.prev_lead@, voices.prev_accent@));
    out
}

/// Set-up before notes are previewed: all notes off, then on channels 0, 2
/// and 3 the registered parameter 0/1 set to 62/2, then program 51 on
/// channel 0 and program 33 on channel 2.
pub open spec fn preview_setup_msgs() -> Seq<Seq<u8>> {
    reset_msgs()
        + seq![cc_msg(0, 101, 0), cc_msg(0, 100, 1), cc_msg(0, 6, 62), cc_msg(0, 38, 2)]
        + seq![cc_msg(2, 101, 0), cc_msg(2, 100, 1), cc_msg(2, 6, 62), cc_msg(2, 38, 2)]
        + seq![cc_msg(3, 101, 0), cc_msg(3, 100, 1), cc_msg(3, 6, 62), cc_msg(3, 38, 2)]
        + seq![seq![0xC0u8, 51u8], seq![0xC2u8, 33u8]]
}

/// Note-on of a previewed note: below the bass register on the bass
/// channel at velocity 35, otherwise on the lead channel at velocity 15,
/// scaled by the master volume.
pub open spec fn preview_msg(n: u8, mv: u8) -> Seq<u8> {
    if n < MIN_NOTE {
        note_msg(2, n, spec_sc(35, mv))
    } else {
        note_msg(0, n, spec_sc(15, mv))
    }
}

/// Messages sent before previewing notes.
pub fn preview_setup_messages() -> (r: Vec<Vec<u8>>)
    ensures
        msgs_view(r@) == preview_setup_msgs(),
{
    let mut r = reset_messages();
    let chans: [u8; 3] = [0, 2, 3];
    let mut k: usize = 0;
    while k < 3
        invariant
            k <= 3,
            chans@ == seq![0u8, 2u8, 3u8],
            msgs_view(r@) == reset_msgs() + (if k >= 1 { seq![cc_msg(0, 101, 0), cc_msg(0, 100, 1), cc_msg(0, 6, 62), cc_msg(0, 38, 2)] } else { Seq::empty() })
                + (if k >= 2 { seq![cc_msg(2, 101, 0), cc_msg(2, 100, 1), cc_msg(2, 6, 62), cc_msg(2, 38, 2)] } else { Seq::empty() })
                + (if k >= 3 { seq![cc_msg(3, 101, 0), cc_msg(3, 100, 1), cc_msg(3, 6, 62), cc_msg(3, 38, 2)] } else { Seq::empty() }),
        decreases 3 - k,
    {
        let ch = chans[k];
        let ghost before = msgs_view(r@);
        r.push(vec![0xB0u8 | ch, 101u8, 0u8]);
        r.push(vec![0xB0u8 | ch, 100u8, 1u8]);
        r.push(vec![0xB0u8 | ch, 6u8, 62u8]);
        r.push(vec![0xB0u8 | ch, 38u8, 2u8]);
        proof {
            assert(msgs_view(r@) =~= before + seq![cc_msg(ch, 101, 0), cc_msg(ch, 100, 1), cc_msg(ch, 6, 62), cc_msg(ch, 38, 2)]);
        }
        k = k + 1;
    }
    let ghost before = msgs_view(r@);
    r.push(vec![0xC0u8, 51u8]);
    r.push(vec![0xC2u8, 33u8]);
    assert(msgs_view(r@) =~= before + seq![seq![0xC0u8, 51u8], seq![0xC2u8, 33u8]]);
    assert(msgs_view(r@) =~= preview_setup_msgs());
    r
}

/// Note-on of one previewed note.
pub fn preview_message(n: u8, mv: u8) -> (r: Vec<u8>)
    ensures
        r@ == preview_msg(n, mv),
{
    if n < MIN_NOTE {
        vec![0x90u8 | 2u8, n, sc(35, mv)]
    } else {
        vec![0x90u8 | 0u8, n, sc(15, mv)]
    }
}

/// Held bass: with walking off, the bass strikes the chord's root when the
/// chord begins and again on every new beat (after releasing the note it
/// held), whatever the walking line holds.
pub proof fn held_bass_strikes_the_root(last: u64, prev: u8, beat: u64, notes: Seq<u8>, wn: Seq<u8>, t: LiveTrack, mv: u8)
    requires
        notes.len() >= 1,
        !t.mute,
        beat > last,
    ensures
        first_bass(notes, wn, false) == notes[0],
        tick_bass(last, prev, beat, notes, wn, false, t, mv).len() == 2,
        tick_bass(last, prev, beat, notes, wn, false, t, mv)[0] == seq![0x90u8 | t.channel, prev, 0u8],
        tick_bass(last, prev, beat, notes, wn, false, t, mv)[1] == seq![0x90u8 | t.channel, notes[0], track_vel(t, mv)],
{
}

} // verus!
