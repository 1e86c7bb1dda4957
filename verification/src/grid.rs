//! The notes of a rendered chord grid, placed on whole beats and half
//! beats of their chord: off-beat lead stabs, a walking or held bass, pads,
//! the drum pattern and the accent on beats 2 and 4. The caller turns a
//! chord's length into a `ChordShape` and a note's place into time.
use vstd::prelude::*;
use crate::patterns::{DrumHit, PAT_REGGAE, pat, render_drum_hits, sc, spec_pat, spec_render_drum_hits, spec_sc};
use crate::render::{CH_ACC, CH_BASS, CH_DRUMS, CH_LEAD, CH_STR, RenderCfg, TrackCfg, beats_per_bar, find_track, spec_beats_per_bar, track_for_channel};
use crate::walking::{is_minor_checked, is_minor_defined, spec_is_minor, spec_walking_bass, walking_bass_checked, walking_bass_defined};

verus! {

/// How long a grid note lasts, given the length `len` of its chord in beats.
#[derive(Clone, Copy, Debug, PartialEq, Eq, Structural)]
pub enum DurKind {
    /// The whole chord: `len`.
    Chord,
    /// `len`, at most a quarter of a beat.
    ChordMaxQuarter,
    /// A quarter of a beat.
    Quarter,
    /// An eighth of a beat.
    Eighth,
    /// One beat less one tick: 287/288 of a beat.
    WalkBeat,
    /// What is left of the chord after three beats: `len - 3`.
    WalkRest,
}

/// What the placement of a chord's notes depends on in its length and its
/// position.
#[derive(Clone, Copy, Debug, PartialEq, Eq, Structural)]
pub struct ChordShape {
    /// Beat slots of the chord: its whole beats, or one for a chord shorter
    /// than a beat but longer than nothing. A chord without a slot (no
    /// length) plays nothing.
    pub whole_beats: u32,
    /// The chord lasts less than one beat.
    pub short: bool,
    /// The last walking note has a positive length: the chord lasts more
    /// than three beats, or, when it is short, more than nothing.
    pub walk_rest: bool,
    /// The chord lasts more than one beat (reggae leaves out its pads).
    pub reggae_long: bool,
    /// Whole beats from the start of the grid to the start of the chord.
    pub bar_start: u32,
}

/// A note played `beat` whole beats after the start of its chord, half a
/// beat later when `half`.
#[derive(Clone, Copy, Debug, PartialEq, Eq, Structural)]
pub struct GridNote {
    pub channel: u8,
    pub pitch: u8,
    pub velocity: u8,
    pub beat: u32,
    pub half: bool,
    pub dur: DurKind,
}

/// A track is silent when it is missing or muted.
pub open spec fn muted(t: Option<TrackCfg>) -> bool {
    match t {
        Some(t) => t.mute,
        None => true,
    }
}

/// The volume of a track, `d` when it is missing.
pub open spec fn volume_or(t: Option<TrackCfg>, d: u8) -> u8 {
    match t {
        Some(t) => t.volume,
        None => d,
    }
}

pub open spec fn gnote(channel: u8, pitch: u8, velocity: u8, beat: u32, half: bool, dur: DurKind) -> GridNote {
    GridNote { channel, pitch, velocity, beat, half, dur }
}

/// One note per tone, all at the same place and of the same length.
pub open spec fn tones_at(channel: u8, tones: Seq<u8>, velocity: u8, beat: u32, half: bool, dur: DurKind) -> Seq<GridNote> {
    Seq::new(tones.len(), |i: int| gnote(channel, tones[i], velocity, beat, half, dur))
}

/// The chord tones: every note after the root.
pub open spec fn chord_tones(notes: Seq<u8>) -> Seq<u8> {
    notes.subrange(1, notes.len() as int)
}

/// Lead stabs on the off-beat of each of the first `n` beats.
pub open spec fn lead_stabs(tones: Seq<u8>, v: u8, n: nat) -> Seq<GridNote>
    decreases n,
{
    if n == 0 {
        Seq::empty()
    } else {
        lead_stabs(tones, v, (n - 1) as nat) + tones_at(CH_LEAD, tones, v, (n - 1) as u32, true, DurKind::Quarter)
    }
}

/// Lead: off-beat stabs of a quarter beat, or the chord struck at once and
/// clipped to a quarter beat when it is shorter than a beat.
pub open spec fn lead_part(notes: Seq<u8>, shape: ChordShape, tracks: Seq<TrackCfg>) -> Seq<GridNote> {
    let t = find_track(tracks, CH_LEAD);
    if muted(t) {
        Seq::empty()
    } else {
        let v = spec_sc(volume_or(t, 80), 127);
        if shape.short {
            tones_at(CH_LEAD, chord_tones(notes), v, 0, false, DurKind::ChordMaxQuarter)
        } else {
            lead_stabs(chord_tones(notes), v, shape.whole_beats as nat)
        }
    }
}

/// The three notes the walking line is built on: root, first chord tone,
/// second chord tone (the root again when there is none).
pub open spec fn walk_chord(notes: Seq<u8>) -> Seq<u8> {
    seq![notes[0], notes[1], if notes.len() > 2 { notes[2] } else { notes[0] }]
}

/// Minor as judged from the root and the first chord tone.
pub open spec fn walk_minor(notes: Seq<u8>) -> bool {
    spec_is_minor(seq![notes[0], notes[1]])
}

/// The bass walks on this chord: walking is on, the bass plays, and the
/// chord has a tone besides its root.
pub open spec fn walks(notes: Seq<u8>, tracks: Seq<TrackCfg>, walking: bool) -> bool {
    walking && notes.len() >= 2 && !muted(find_track(tracks, CH_BASS))
}

/// The chord's notes can be placed: where the bass walks on a chord that
/// plays, the minor test and every 8-bit step of the walking line stay in
/// range.
pub open spec fn grid_chord_defined(notes: Seq<u8>, next_root: u8, shape: ChordShape, seed: u64, tracks: Seq<TrackCfg>, walking: bool) -> bool {
    walks(notes, tracks, walking) && shape.whole_beats > 0 ==> {
        &&& is_minor_defined(seq![notes[0], notes[1]])
        &&& walking_bass_defined(walk_chord(notes), next_root, seed, walk_minor(notes))
    }
}

/// Bass: the notes of the walking line that fall in the chord (its first
/// three on the chord's whole beats, the fourth when the chord lasts more
/// than three beats, one held note for a chord under a beat), or the root
/// held over the chord.
pub open spec fn bass_part(notes: Seq<u8>, next_root: u8, shape: ChordShape, seed: u64, tracks: Seq<TrackCfg>, walking: bool) -> Seq<GridNote> {
    let t = find_track(tracks, CH_BASS);
    if muted(t) {
        Seq::empty()
    } else {
        let v = spec_sc(volume_or(t, 90), 127);
        if walking && notes.len() >= 2 {
            let w = spec_walking_bass(walk_chord(notes), next_root, seed, walk_minor(notes));
            if shape.short {
                if shape.walk_rest {
                    seq![gnote(CH_BASS, w[0], v, 0, false, DurKind::Chord)]
                } else {
                    Seq::empty()
                }
            } else {
                seq![
                    gnote(CH_BASS, w[0], v, 0, false, DurKind::WalkBeat),
                    gnote(CH_BASS, w[1], v, 1, false, DurKind::WalkBeat),
                    gnote(CH_BASS, w[2], v, 2, false, DurKind::WalkBeat),
                ].subrange(0, if shape.whole_beats < 3 { shape.whole_beats as int } else { 3 }) + if shape.walk_rest {
                    seq![gnote(CH_BASS, w[3], v, 3, false, DurKind::WalkRest)]
                } else {
                    Seq::empty()
                }
            }
        } else {
            seq![gnote(CH_BASS, notes[0], v, 0, false, DurKind::Chord)]
        }
    }
}

/// Pads: the chord tones held over the chord, left out on reggae chords
/// longer than a beat.
pub open spec fn pad_part(notes: Seq<u8>, shape: ChordShape, tracks: Seq<TrackCfg>, pattern: u8) -> Seq<GridNote> {
    let t = find_track(tracks, CH_STR);
    if muted(t) || (pattern == PAT_REGGAE && shape.reggae_long) {
        Seq::empty()
    } else {
        tones_at(CH_STR, chord_tones(notes), spec_sc(volume_or(t, 60), 127), 0, false, DurKind::Chord)
    }
}

pub open spec fn drum_note(h: DrumHit, beat: u32) -> GridNote {
    gnote(CH_DRUMS, h.pitch, h.velocity, beat, h.upbeat, DurKind::Quarter)
}

/// The beat of the bar at slot `b` of the chord.
pub open spec fn bar_beat(shape: ChordShape, b: u32, bpb: u32) -> u32 {
    ((shape.bar_start + b) % (bpb as int)) as u32
}

/// Slot `b` of the chord: the drum pattern's hits on that beat of the bar
/// (no off-beat for a chord under a beat), then the accent on beats 2 and 4.
pub open spec fn slot_part(notes: Seq<u8>, shape: ChordShape, tracks: Seq<TrackCfg>, pattern: u8, bpb: u32, b: u32) -> Seq<GridNote> {
    let dt = find_track(tracks, CH_DRUMS);
    let at = find_track(tracks, CH_ACC);
    let hits = spec_render_drum_hits(pattern, bar_beat(shape, b, bpb), spec_sc(volume_or(dt, 100), 127), !shape.short);
    let drums = if muted(dt) {
        Seq::empty()
    } else {
        Seq::new(hits.len(), |i: int| drum_note(hits[i], b))
    };
    let accent = if !muted(at) && (b == 1 || b == 3) {
        tones_at(CH_ACC, chord_tones(notes), spec_sc(volume_or(at, 70), 127), b, false, DurKind::Eighth)
    } else {
        Seq::empty()
    };
    drums + accent
}

/// The first `n` slots of the chord.
pub open spec fn slots_part(notes: Seq<u8>, shape: ChordShape, tracks: Seq<TrackCfg>, pattern: u8, bpb: u32, n: nat) -> Seq<GridNote>
    decreases n,
{
    if n == 0 {
        Seq::empty()
    } else {
        slots_part(notes, shape, tracks, pattern, bpb, (n - 1) as nat) + slot_part(notes, shape, tracks, pattern, bpb, (n - 1) as u32)
    }
}

/// All the notes of one chord, in the order lead, bass, pads, then slot by
/// slot drums and accent; nothing for an empty chord (a rest) nor for a
/// chord without length (no beat slot). Every note starts within its chord
/// (see `starts_in_chord`), so a rest after it stays silent.
pub open spec fn spec_grid_chord_notes(
    notes: Seq<u8>,
    next_root: u8,
    shape: ChordShape,
    seed: u64,
    tracks: Seq<TrackCfg>,
    pattern: Seq<char>,
    walking: bool,
    sig: Seq<char>,
) -> Seq<GridNote> {
    if notes.len() == 0 || shape.whole_beats == 0 {
        Seq::empty()
    } else {
        lead_part(notes, shape, tracks) + bass_part(notes, next_root, shape, seed, tracks, walking) + pad_part(
            notes,
            shape,
            tracks,
            spec_pat(pattern),
        ) + slots_part(notes, shape, tracks, spec_pat(pattern), spec_beats_per_bar(sig), shape.whole_beats as nat)
    }
}

/// The slots of a chord with notes can be walked: a bar has beats, and the
/// beat count from the start of the grid stays in 32 bits.
pub open spec fn shape_fits(notes: Seq<u8>, shape: ChordShape, sig: Seq<char>) -> bool {
    notes.len() > 0 && shape.whole_beats > 0 ==> {
        &&& spec_beats_per_bar(sig) > 0
        &&& shape.bar_start + shape.whole_beats - 1 <= u32::MAX
    }
}

fn is_muted(t: Option<TrackCfg>) -> (r: bool)
    ensures
        r == muted(t),
{
    match t {
        Some(t) => t.mute,
        None => true,
    }
}

fn track_volume(t: Option<TrackCfg>, d: u8) -> (r: u8)
    ensures
        r == volume_or(t, d),
{
    match t {
        Some(t) => t.volume,
        None => d,
    }
}

fn push_tones(out: &mut Vec<GridNote>, channel: u8, tones: &[u8], velocity: u8, beat: u32, half: bool, dur: DurKind)
    ensures
        final(out)@ == old(out)@ + tones_at(channel, tones@, velocity, beat, half, dur),
{
    let ghost start = out@;
    let mut i: usize = 0;
    while i < tones.len()
        invariant
            i <= tones@.len(),
            out@ == start + tones_at(channel, tones@.subrange(0, i as int), velocity, beat, half, dur),
        decreases tones@.len() - i,
    {
        out.push(GridNote { channel, pitch: tones[i], velocity, beat, half, dur });
        proof {
            assert(tones_at(channel, tones@.subrange(0, i + 1), velocity, beat, half, dur) =~= tones_at(
                channel,
                tones@.subrange(0, i as int),
                velocity,
                beat,
                half,
                dur,
            ).push(gnote(channel, tones@[i as int], velocity, beat, half, dur)));
        }
        i = i + 1;
    }
    assert(tones@.subrange(0, tones@.len() as int) =~= tones@);
}

fn lead_notes(notes: &[u8], shape: ChordShape, tracks: &[TrackCfg]) -> (r: Vec<GridNote>)
    requires
        notes@.len() > 0,
    ensures
        r@ == lead_part(notes@, shape, tracks@),
{
    let mut out: Vec<GridNote> = Vec::new();
    let t = track_for_channel(tracks, CH_LEAD);
    if is_muted(t) {
        return out;
    }
    let v = sc(track_volume(t, 80), 127);
    let tones = vstd::slice::slice_subrange(notes, 1, notes.len());
    if shape.short {
        push_tones(&mut out, CH_LEAD, tones, v, 0, false, DurKind::ChordMaxQuarter);
        return out;
    }
    let mut b: u32 = 0;
    while b < shape.whole_beats
        invariant
            b <= shape.whole_beats,
            tones@ == chord_tones(notes@),
            out@ == lead_stabs(tones@, v, b as nat),
        decreases shape.whole_beats - b,
    {
        push_tones(&mut out, CH_LEAD, tones, v, b, true, DurKind::Quarter);
        b = b + 1;
    }
    out
}

fn bass_notes(notes: &[u8], next_root: u8, shape: ChordShape, seed: u64, tracks: &[TrackCfg], walking: bool) -> (r: Option<Vec<GridNote>>)
    requires
        notes@.len() > 0,
        shape.whole_beats > 0,
    ensures
        match r {
            Some(v) => grid_chord_defined(notes@, next_root, shape, seed, tracks@, walking) && v@ == bass_part(
                notes@,
                next_root,
                shape,
                seed,
                tracks@,
                walking,
            ),
            None => !grid_chord_defined(notes@, next_root, shape, seed, tracks@, walking),
        },
{
    let mut out: Vec<GridNote> = Vec::new();
    let t = track_for_channel(tracks, CH_BASS);
    if is_muted(t) {
        return Some(out);
    }
    let v = sc(track_volume(t, 90), 127);
    if !(walking && notes.len() >= 2) {
        out.push(GridNote { channel: CH_BASS, pitch: notes[0], velocity: v, beat: 0, half: false, dur: DurKind::Chord });
        return Some(out);
    }
    let pair = vec![notes[0], notes[1]];
    assert(pair@ =~= seq![notes@[0], notes@[1]]);
    let minor = match is_minor_checked(pair.as_slice()) {
        Some(m) => m,
        None => {
            return None;
        },
    };
    let third: u8 = if notes.len() > 2 { notes[2] } else { notes[0] };
    let base = vec![notes[0], notes[1], third];
    assert(base@ =~= walk_chord(notes@));
    let w = match walking_bass_checked(base.as_slice(), next_root, seed, minor) {
        Some(w) => w,
        None => {
            return None;
        },
    };
    if shape.short {
        if shape.walk_rest {
            out.push(GridNote { channel: CH_BASS, pitch: w[0], velocity: v, beat: 0, half: false, dur: DurKind::Chord });
        }
    } else {
        out.push(GridNote { channel: CH_BASS, pitch: w[0], velocity: v, beat: 0, half: false, dur: DurKind::WalkBeat });
        if shape.whole_beats >= 2 {
            out.push(GridNote { channel: CH_BASS, pitch: w[1], velocity: v, beat: 1, half: false, dur: DurKind::WalkBeat });
        }
        if shape.whole_beats >= 3 {
            out.push(GridNote { channel: CH_BASS, pitch: w[2], velocity: v, beat: 2, half: false, dur: DurKind::WalkBeat });
        }
        if shape.walk_rest {
            out.push(GridNote { channel: CH_BASS, pitch: w[3], velocity: v, beat: 3, half: false, dur: DurKind::WalkRest });
        }
    }
    proof {
        let ws = spec_walking_bass(walk_chord(notes@), next_root, seed, walk_minor(notes@));
        assert(w@ == ws);
        assert(w[0] == ws[0] && w[1] == ws[1] && w[2] == ws[2] && w[3] == ws[3]);
        assert(out@ =~= bass_part(notes@, next_root, shape, seed, tracks@, walking));
    }
    Some(out)
}

fn pad_notes(notes: &[u8], shape: ChordShape, tracks: &[TrackCfg], pattern: u8) -> (r: Vec<GridNote>)
    requires
        notes@.len() > 0,
    ensures
        r@ == pad_part(notes@, shape, tracks@, pattern),
{
    let mut out: Vec<GridNote> = Vec::new();
    let t = track_for_channel(tracks, CH_STR);
    if is_muted(t) || (pattern == PAT_REGGAE && shape.reggae_long) {
        return out;
    }
    let tones = vstd::slice::slice_subrange(notes, 1, notes.len());
    push_tones(&mut out, CH_STR, tones, sc(track_volume(t, 60), 127), 0, false, DurKind::Chord);
    out
}

fn push_drums(out: &mut Vec<GridNote>, hits: &Vec<DrumHit>, b: u32)
    ensures
        final(out)@ == old(out)@ + Seq::new(hits@.len(), |i: int| drum_note(hits@[i], b)),
{
    let ghost start = out@;
    let mut i: usize = 0;
    while i < hits.len()
        invariant
            i <= hits@.len(),
            out@ == start + Seq::new(i as nat, |k: int| drum_note(hits@[k], b)),
        decreases hits@.len() - i,
    {
        let h = hits[i];
        out.push(GridNote { channel: CH_DRUMS, pitch: h.pitch, velocity: h.velocity, beat: b, half: h.upbeat, dur: DurKind::Quarter });
        proof {
            assert(Seq::new((i + 1) as nat, |k: int| drum_note(hits@[k], b)) =~= Seq::new(i as nat, |k: int| drum_note(hits@[k], b)).push(
                drum_note(hits@[i as int], b),
            ));
        }
        i = i + 1;
    }
}

fn slot_notes(notes: &[u8], shape: ChordShape, tracks: &[TrackCfg], pattern: u8, bpb: u32) -> (r: Vec<GridNote>)
    requires
        notes@.len() > 0,
        shape.whole_beats > 0 ==> bpb > 0 && shape.bar_start + shape.whole_beats - 1 <= u32::MAX,
    ensures
        r@ == slots_part(notes@, shape, tracks@, pattern, bpb, shape.whole_beats as nat),
{
    let mut out: Vec<GridNote> = Vec::new();
    let dt = track_for_channel(tracks, CH_DRUMS);
    let at = track_for_channel(tracks, CH_ACC);
    let drums_off = is_muted(dt);
    let accent_off = is_muted(at);
    let dv = sc(track_volume(dt, 100), 127);
    let av = sc(track_volume(at, 70), 127);
    let tones = vstd::slice::slice_subrange(notes, 1, notes.len());
    let mut b: u32 = 0;
    while b < shape.whole_beats
        invariant
            b <= shape.whole_beats,
            shape.whole_beats > 0 ==> bpb > 0 && shape.bar_start + shape.whole_beats - 1 <= u32::MAX,
            dt == find_track(tracks@, CH_DRUMS),
            at == find_track(tracks@, CH_ACC),
            drums_off == muted(dt),
            accent_off == muted(at),
            dv == spec_sc(volume_or(dt, 100), 127),
            av == spec_sc(volume_or(at, 70), 127),
            tones@ == chord_tones(notes@),
            out@ == slots_part(notes@, shape, tracks@, pattern, bpb, b as nat),
        decreases shape.whole_beats - b,
    {
        let beat_of_bar: u32 = (shape.bar_start + b) % bpb;
        assert(beat_of_bar == bar_beat(shape, b, bpb));
        let ghost before = out@;
        if !drums_off {
            let hits = render_drum_hits(pattern, beat_of_bar, dv, !shape.short);
            push_drums(&mut out, &hits, b);
        }
        if !accent_off && (b == 1 || b == 3) {
            push_tones(&mut out, CH_ACC, tones, av, b, false, DurKind::Eighth);
        }
        proof {
            assert(out@ =~= before + slot_part(notes@, shape, tracks@, pattern, bpb, b));
        }
        b = b + 1;
    }
    out
}

/// The notes of one chord of the grid (see `spec_grid_chord_notes`), with
/// the root of the next chord and the seed of the walking line; `None`
/// where the walking line of this chord cannot be computed in 8 bits.
pub fn grid_chord_notes(notes: &[u8], next_root: u8, shape: ChordShape, seed: u64, cfg: &RenderCfg) -> (r: Option<Vec<GridNote>>)
    requires
        shape_fits(notes@, shape, cfg.sig@),
    ensures
        match r {
            Some(v) => grid_chord_defined(notes@, next_root, shape, seed, cfg.tracks@, cfg.walking) && v@ == spec_grid_chord_notes(
                notes@,
                next_root,
                shape,
                seed,
                cfg.tracks@,
                cfg.pattern@,
                cfg.walking,
                cfg.sig@,
            ),
            None => !grid_chord_defined(notes@, next_root, shape, seed, cfg.tracks@, cfg.walking),
        },
{
    if notes.len() == 0 || shape.whole_beats == 0 {
        return Some(Vec::new());
    }
    let tracks = cfg.tracks.as_slice();
    let pattern = pat(cfg.pattern.as_str());
    let bpb = beats_per_bar(cfg.sig.as_str());
    let mut out = lead_notes(notes, shape, tracks);
    let mut bass = match bass_notes(notes, next_root, shape, seed, tracks, cfg.walking) {
        Some(b) => b,
        None => {
            return None;
        },
    };
    let mut pads = pad_notes(notes, shape, tracks, pattern);
    let mut slots = slot_notes(notes, shape, tracks, pattern, bpb);
    out.append(&mut bass);
    out.append(&mut pads);
    out.append(&mut slots);
    Some(out)
}

/// The grid as sequences of notes.
pub open spec fn grid_view(g: Seq<Vec<u8>>) -> Seq<Seq<u8>> {
    Seq::new(g.len(), |i: int| g[i]@)
}

/// The root the walking line of chord `i` heads for: the next chord's root;
/// after the last chord or before a rest, the first chord's root; else the
/// chord's own root.
pub open spec fn next_root_of(g: Seq<Seq<u8>>, i: int) -> u8 {
    if i + 1 < g.len() && g[i + 1].len() > 0 {
        g[i + 1][0]
    } else if g.len() > 0 && g[0].len() > 0 {
        g[0][0]
    } else {
        g[i][0]
    }
}

/// The seed of the walking line of chord `n`: how many of the chords
/// before it walk.
pub open spec fn seed_before(g: Seq<Seq<u8>>, tracks: Seq<TrackCfg>, walking: bool, n: nat) -> nat
    decreases n,
{
    if n == 0 {
        0
    } else {
        seed_before(g, tracks, walking, (n - 1) as nat) + if walks(g[n - 1], tracks, walking) { 1nat } else { 0nat }
    }
}

proof fn lemma_seed_before_bound(g: Seq<Seq<u8>>, tracks: Seq<TrackCfg>, walking: bool, n: nat)
    ensures
        seed_before(g, tracks, walking, n) <= n,
    decreases n,
{
    if n > 0 {
        lemma_seed_before_bound(g, tracks, walking, (n - 1) as nat);
    }
}

/// The chord `i` of the grid can be placed.
pub open spec fn grid_defined_at(g: Seq<Seq<u8>>, shapes: Seq<ChordShape>, i: int, tracks: Seq<TrackCfg>, walking: bool) -> bool {
    grid_chord_defined(g[i], next_root_of(g, i), shapes[i], seed_before(g, tracks, walking, i as nat) as u64, tracks, walking)
}

/// The notes of every chord of the grid, chord by chord: each chord placed
/// by `grid_chord_notes` with the root of the chord after it and, as the
/// seed of its walking line, the number of walking chords before it.
/// `None` when the walking line of some chord cannot be computed in 8 bits.
pub fn grid_notes(notes_arrays: &[Vec<u8>], shapes: &[ChordShape], cfg: &RenderCfg) -> (r: Option<Vec<Vec<GridNote>>>)
    requires
        shapes@.len() == notes_arrays@.len(),
        forall|i: int| 0 <= i < shapes@.len() ==> #[trigger] shape_fits(notes_arrays@[i]@, shapes@[i], cfg.sig@),
    ensures
        match r {
            Some(v) => {
                &&& v@.len() == notes_arrays@.len()
                &&& forall|i: int| 0 <= i < v@.len() ==> #[trigger] grid_defined_at(grid_view(notes_arrays@), shapes@, i, cfg.tracks@, cfg.walking)
                &&& forall|i: int| 0 <= i < v@.len() ==> #[trigger] v@[i]@ == spec_grid_chord_notes(
                    notes_arrays@[i]@,
                    next_root_of(grid_view(notes_arrays@), i),
                    shapes@[i],
                    seed_before(grid_view(notes_arrays@), cfg.tracks@, cfg.walking, i as nat) as u64,
                    cfg.tracks@,
                    cfg.pattern@,
                    cfg.walking,
                    cfg.sig@,
                )
            },
            None => exists|i: int| 0 <= i < notes_arrays@.len() && !#[trigger] grid_defined_at(grid_view(notes_arrays@), shapes@, i, cfg.tracks@, cfg.walking),
        },
{
    let ghost g = grid_view(notes_arrays@);
    let n = notes_arrays.len();
    let bass_on = !is_muted(track_for_channel(cfg.tracks.as_slice(), CH_BASS));
    let mut out: Vec<Vec<GridNote>> = Vec::new();
    let mut seed: u64 = 0;
    let mut i: usize = 0;
    while i < n
        invariant
            n == notes_arrays@.len(),
            n == shapes@.len(),
            g == grid_view(notes_arrays@),
            bass_on == !muted(find_track(cfg.tracks@, CH_BASS)),
            forall|k: int| 0 <= k < shapes@.len() ==> #[trigger] shape_fits(notes_arrays@[k]@, shapes@[k], cfg.sig@),
            i <= n,
            seed == seed_before(g, cfg.tracks@, cfg.walking, i as nat),
            out@.len() == i,
            forall|k: int| 0 <= k < i ==> #[trigger] grid_defined_at(g, shapes@, k, cfg.tracks@, cfg.walking),
            forall|k: int| 0 <= k < i ==> #[trigger] out@[k]@ == spec_grid_chord_notes(
                notes_arrays@[k]@,
                next_root_of(g, k),
                shapes@[k],
                seed_before(g, cfg.tracks@, cfg.walking, k as nat) as u64,
                cfg.tracks@,
                cfg.pattern@,
                cfg.walking,
                cfg.sig@,
            ),
        decreases n - i,
    {
        let notes = notes_arrays[i].as_slice();
        assert(notes@ == g[i as int]);
        let next_root: u8 = if i + 1 < n && notes_arrays[i + 1].len() > 0 {
            notes_arrays[i + 1][0]
        } else if n > 0 && notes_arrays[0].len() > 0 {
            notes_arrays[0][0]
        } else if notes.len() > 0 {
            notes[0]
        } else {
            0
        };
        assert(notes@.len() > 0 ==> next_root == next_root_of(g, i as int));
        assert(shape_fits(notes_arrays@[i as int]@, shapes@[i as int], cfg.sig@));
        let placed = grid_chord_notes(notes, next_root, shapes[i], seed, cfg);
        let chord_notes = match placed {
            Some(v) => v,
            None => {
                assert(!grid_defined_at(g, shapes@, i as int, cfg.tracks@, cfg.walking));
                return None;
            },
        };
        proof {
            lemma_seed_before_bound(g, cfg.tracks@, cfg.walking, i as nat);
        }
        let walked = cfg.walking && notes.len() >= 2 && bass_on;
        assert(walked == walks(g[i as int], cfg.tracks@, cfg.walking));
        out.push(chord_notes);
        if walked {
            seed = seed + 1;
        }
        i = i + 1;
    }
    Some(out)
}

/// Every note of `s` has the property `p`.
pub open spec fn every_note(s: Seq<GridNote>, p: spec_fn(GridNote) -> bool) -> bool {
    forall|k: int| 0 <= k < s.len() ==> #[trigger] p(s[k])
}

/// An accent note falls on the second or fourth beat of its chord and
/// lasts an eighth of a beat.
pub open spec fn accent_on_two_or_four(g: GridNote) -> bool {
    g.channel == CH_ACC ==> (g.beat == 1 || g.beat == 3) && g.dur == DurKind::Eighth
}

/// A lead note of a chord of a beat or more is an off-beat stab of a
/// quarter beat; under a beat it is struck with the chord.
pub open spec fn lead_stab_placed(short: bool) -> spec_fn(GridNote) -> bool {
    |g: GridNote| g.channel == CH_LEAD ==> if short {
        g.beat == 0 && !g.half && g.dur == DurKind::ChordMaxQuarter
    } else {
        g.half && g.dur == DurKind::Quarter
    }
}

proof fn lemma_render_hits_on_beat(pat: u8, bar_beat: u32, dv: u8)
    ensures
        forall|k: int| 0 <= k < spec_render_drum_hits(pat, bar_beat, dv, false).len() ==> !(#[trigger] spec_render_drum_hits(pat, bar_beat, dv, false)[k]).upbeat,
{
}

proof fn lemma_every_concat(a: Seq<GridNote>, b: Seq<GridNote>, p: spec_fn(GridNote) -> bool)
    requires
        every_note(a, p),
        every_note(b, p),
    ensures
        every_note(a + b, p),
{
    assert forall|k: int| 0 <= k < (a + b).len() implies #[trigger] p((a + b)[k]) by {
        if k < a.len() {
            assert((a + b)[k] == a[k]);
        } else {
            assert((a + b)[k] == b[k - a.len()]);
        }
    }
}

proof fn lemma_tones_every(channel: u8, tones: Seq<u8>, v: u8, beat: u32, half: bool, dur: DurKind, p: spec_fn(GridNote) -> bool)
    requires
        forall|pitch: u8| #[trigger] p(gnote(channel, pitch, v, beat, half, dur)),
    ensures
        every_note(tones_at(channel, tones, v, beat, half, dur), p),
{
    assert forall|k: int| 0 <= k < tones_at(channel, tones, v, beat, half, dur).len() implies #[trigger] p(
        tones_at(channel, tones, v, beat, half, dur)[k],
    ) by {
        assert(tones_at(channel, tones, v, beat, half, dur)[k] == gnote(channel, tones[k], v, beat, half, dur));
    }
}

proof fn lemma_slots_every(notes: Seq<u8>, shape: ChordShape, tracks: Seq<TrackCfg>, pattern: u8, bpb: u32, n: nat, p: spec_fn(GridNote) -> bool)
    requires
        forall|h: DrumHit, b: u32| b < n && (shape.short ==> !h.upbeat) ==> #[trigger] p(drum_note(h, b)),
        forall|pitch: u8, v: u8, b: u32| b < n && (b == 1 || b == 3) ==> #[trigger] p(gnote(CH_ACC, pitch, v, b, false, DurKind::Eighth)),
    ensures
        every_note(slots_part(notes, shape, tracks, pattern, bpb, n), p),
    decreases n,
{
    if n > 0 {
        let b = (n - 1) as u32;
        lemma_slots_every(notes, shape, tracks, pattern, bpb, (n - 1) as nat, p);
        let dt = find_track(tracks, CH_DRUMS);
        let at = find_track(tracks, CH_ACC);
        let hits = spec_render_drum_hits(pattern, bar_beat(shape, b, bpb), spec_sc(volume_or(dt, 100), 127), !shape.short);
        let drums: Seq<GridNote> = if muted(dt) { Seq::empty() } else { Seq::new(hits.len(), |i: int| drum_note(hits[i], b)) };
        assert forall|k: int| 0 <= k < drums.len() implies #[trigger] p(drums[k]) by {
            assert(drums[k] == drum_note(hits[k], b));
            if shape.short {
                lemma_render_hits_on_beat(pattern, bar_beat(shape, b, bpb), spec_sc(volume_or(dt, 100), 127));
            }
        }
        let accent = if !muted(at) && (b == 1 || b == 3) {
            tones_at(CH_ACC, chord_tones(notes), spec_sc(volume_or(at, 70), 127), b, false, DurKind::Eighth)
        } else {
            Seq::empty()
        };
        if !muted(at) && (b == 1 || b == 3) {
            lemma_tones_every(CH_ACC, chord_tones(notes), spec_sc(volume_or(at, 70), 127), b, false, DurKind::Eighth, p);
        }
        assert(every_note(accent, p));
        lemma_every_concat(drums, accent, p);
        assert(slot_part(notes, shape, tracks, pattern, bpb, b) == drums + accent);
        lemma_every_concat(slots_part(notes, shape, tracks, pattern, bpb, (n - 1) as nat), drums + accent, p);
    }
}

proof fn lemma_lead_stabs_every(tones: Seq<u8>, v: u8, n: nat, p: spec_fn(GridNote) -> bool)
    requires
        forall|pitch: u8, b: u32| b < n ==> #[trigger] p(gnote(CH_LEAD, pitch, v, b, true, DurKind::Quarter)),
    ensures
        every_note(lead_stabs(tones, v, n), p),
    decreases n,
{
    if n > 0 {
        lemma_lead_stabs_every(tones, v, (n - 1) as nat, p);
        lemma_tones_every(CH_LEAD, tones, v, (n - 1) as u32, true, DurKind::Quarter, p);
        lemma_every_concat(lead_stabs(tones, v, (n - 1) as nat), tones_at(CH_LEAD, tones, v, (n - 1) as u32, true, DurKind::Quarter), p);
    }
}

proof fn lemma_bass_every(notes: Seq<u8>, next_root: u8, shape: ChordShape, seed: u64, tracks: Seq<TrackCfg>, walking: bool, p: spec_fn(GridNote) -> bool)
    requires
        forall|g: GridNote| g.channel == CH_BASS ==> #[trigger] p(g),
    ensures
        every_note(bass_part(notes, next_root, shape, seed, tracks, walking), p),
{
    let s = bass_part(notes, next_root, shape, seed, tracks, walking);
    assert forall|k: int| 0 <= k < s.len() implies #[trigger] p(s[k]) by {
        assert(s[k].channel == CH_BASS);
    }
}

/// Accent on 2 and 4: every accent note of a chord is played on the second
/// or the fourth beat of the chord and lasts an eighth of a beat.
pub proof fn accent_on_beats_two_and_four(
    notes: Seq<u8>,
    next_root: u8,
    shape: ChordShape,
    seed: u64,
    tracks: Seq<TrackCfg>,
    pattern: Seq<char>,
    walking: bool,
    sig: Seq<char>,
)
    ensures
        every_note(spec_grid_chord_notes(notes, next_root, shape, seed, tracks, pattern, walking, sig), |g: GridNote| accent_on_two_or_four(g)),
{
    let p = |g: GridNote| accent_on_two_or_four(g);
    if notes.len() > 0 {
        let lead = lead_part(notes, shape, tracks);
        assert forall|k: int| 0 <= k < lead.len() implies #[trigger] p(lead[k]) by {
            let t = find_track(tracks, CH_LEAD);
            if !muted(t) {
                let v = spec_sc(volume_or(t, 80), 127);
                if shape.short {
                    lemma_tones_every(CH_LEAD, chord_tones(notes), v, 0, false, DurKind::ChordMaxQuarter, p);
                } else {
                    lemma_lead_stabs_every(chord_tones(notes), v, shape.whole_beats as nat, p);
                }
            }
        }
        lemma_bass_every(notes, next_root, shape, seed, tracks, walking, p);
        let pads = pad_part(notes, shape, tracks, spec_pat(pattern));
        let t = find_track(tracks, CH_STR);
        if !(muted(t) || (spec_pat(pattern) == PAT_REGGAE && shape.reggae_long)) {
            lemma_tones_every(CH_STR, chord_tones(notes), spec_sc(volume_or(t, 60), 127), 0, false, DurKind::Chord, p);
        }
        assert(every_note(pads, p));
        lemma_slots_every(notes, shape, tracks, spec_pat(pattern), spec_beats_per_bar(sig), shape.whole_beats as nat, p);
        let bass = bass_part(notes, next_root, shape, seed, tracks, walking);
        let slots = slots_part(notes, shape, tracks, spec_pat(pattern), spec_beats_per_bar(sig), shape.whole_beats as nat);
        lemma_every_concat(lead, bass, p);
        lemma_every_concat(lead + bass, pads, p);
        lemma_every_concat(lead + bass + pads, slots, p);
    }
}

/// Lead pompe: in a chord of a beat or more every lead note is an off-beat
/// stab lasting a quarter of a beat; in a shorter chord the lead strikes the
/// chord at its start, clipped to a quarter of a beat.
pub proof fn lead_on_off_beats(
    notes: Seq<u8>,
    next_root: u8,
    shape: ChordShape,
    seed: u64,
    tracks: Seq<TrackCfg>,
    pattern: Seq<char>,
    walking: bool,
    sig: Seq<char>,
)
    ensures
        every_note(spec_grid_chord_notes(notes, next_root, shape, seed, tracks, pattern, walking, sig), lead_stab_placed(shape.short)),
{
    let p = lead_stab_placed(shape.short);
    if notes.len() > 0 {
        let lead = lead_part(notes, shape, tracks);
        let t = find_track(tracks, CH_LEAD);
        if !muted(t) {
            let v = spec_sc(volume_or(t, 80), 127);
            if shape.short {
                lemma_tones_every(CH_LEAD, chord_tones(notes), v, 0, false, DurKind::ChordMaxQuarter, p);
            } else {
                lemma_lead_stabs_every(chord_tones(notes), v, shape.whole_beats as nat, p);
            }
        }
        assert(every_note(lead, p));
        lemma_bass_every(notes, next_root, shape, seed, tracks, walking, p);
        let pads = pad_part(notes, shape, tracks, spec_pat(pattern));
        let ts = find_track(tracks, CH_STR);
        if !(muted(ts) || (spec_pat(pattern) == PAT_REGGAE && shape.reggae_long)) {
            lemma_tones_every(CH_STR, chord_tones(notes), spec_sc(volume_or(ts, 60), 127), 0, false, DurKind::Chord, p);
        }
        assert(every_note(pads, p));
        lemma_slots_every(notes, shape, tracks, spec_pat(pattern), spec_beats_per_bar(sig), shape.whole_beats as nat, p);
        let bass = bass_part(notes, next_root, shape, seed, tracks, walking);
        let slots = slots_part(notes, shape, tracks, spec_pat(pattern), spec_beats_per_bar(sig), shape.whole_beats as nat);
        lemma_every_concat(lead, bass, p);
        lemma_every_concat(lead + bass, pads, p);
        lemma_every_concat(lead + bass + pads, slots, p);
    }
}

/// A note starts within its chord: on one of the chord's beat slots (or on
/// the off-beat of one), or, for the fourth walking note, on the fourth beat
/// of a chord that lasts longer; never on an off-beat in a chord under a
/// beat.
pub open spec fn starts_in_chord(shape: ChordShape) -> spec_fn(GridNote) -> bool {
    |g: GridNote| (g.beat < shape.whole_beats || (g.beat == 3 && g.dur == DurKind::WalkRest && shape.walk_rest)) && (shape.short ==> !g.half)
}

/// Rests are silent: a rest has no note, and every note of a chord starts
/// within that chord, so nothing of a chord sounds from a rest that follows
/// it (the timeline moves on by the rest's length).
pub proof fn notes_stay_in_their_chord(
    notes: Seq<u8>,
    next_root: u8,
    shape: ChordShape,
    seed: u64,
    tracks: Seq<TrackCfg>,
    pattern: Seq<char>,
    walking: bool,
    sig: Seq<char>,
)
    ensures
        notes.len() == 0 ==> spec_grid_chord_notes(notes, next_root, shape, seed, tracks, pattern, walking, sig).len() == 0,
        every_note(spec_grid_chord_notes(notes, next_root, shape, seed, tracks, pattern, walking, sig), starts_in_chord(shape)),
{
    let p = starts_in_chord(shape);
    if notes.len() > 0 && shape.whole_beats > 0 {
        let lead = lead_part(notes, shape, tracks);
        let t = find_track(tracks, CH_LEAD);
        if !muted(t) {
            let v = spec_sc(volume_or(t, 80), 127);
            if shape.short {
                lemma_tones_every(CH_LEAD, chord_tones(notes), v, 0, false, DurKind::ChordMaxQuarter, p);
            } else {
                lemma_lead_stabs_every(chord_tones(notes), v, shape.whole_beats as nat, p);
            }
        }
        assert(every_note(lead, p));
        let bass = bass_part(notes, next_root, shape, seed, tracks, walking);
        assert forall|k: int| 0 <= k < bass.len() implies #[trigger] p(bass[k]) by {
            let tb = find_track(tracks, CH_BASS);
            if !muted(tb) && walking && notes.len() >= 2 && !shape.short {
                let v = spec_sc(volume_or(tb, 90), 127);
                let w = spec_walking_bass(walk_chord(notes), next_root, seed, walk_minor(notes));
                let three = seq![
                    gnote(CH_BASS, w[0], v, 0, false, DurKind::WalkBeat),
                    gnote(CH_BASS, w[1], v, 1, false, DurKind::WalkBeat),
                    gnote(CH_BASS, w[2], v, 2, false, DurKind::WalkBeat),
                ];
                let m: int = if shape.whole_beats < 3 { shape.whole_beats as int } else { 3 };
                let first = three.subrange(0, m);
                if k < m {
                    assert(bass[k] == first[k]);
                    assert(first[k] == three[k]);
                    assert(three[k].beat == k);
                }
            }
        }
        let pads = pad_part(notes, shape, tracks, spec_pat(pattern));
        let ts = find_track(tracks, CH_STR);
        if !(muted(ts) || (spec_pat(pattern) == PAT_REGGAE && shape.reggae_long)) {
            lemma_tones_every(CH_STR, chord_tones(notes), spec_sc(volume_or(ts, 60), 127), 0, false, DurKind::Chord, p);
        }
        assert(every_note(pads, p));
        lemma_slots_every(notes, shape, tracks, spec_pat(pattern), spec_beats_per_bar(sig), shape.whole_beats as nat, p);
        let slots = slots_part(notes, shape, tracks, spec_pat(pattern), spec_beats_per_bar(sig), shape.whole_beats as nat);
        lemma_every_concat(lead, bass, p);
        lemma_every_concat(lead + bass, pads, p);
        lemma_every_concat(lead + bass + pads, slots, p);
    }
}

/// The walking line of a chord heads for the root of the chord that follows
/// it; only after the last chord, or before a rest, does it head back for
/// the root of the grid's first chord (and, when that is a rest too, for
/// its own root). The line is the one `grid_notes` places for chord `i`.
pub proof fn walking_heads_for_next_root(g: Seq<Seq<u8>>, i: int)
    requires
        0 <= i < g.len(),
        g[i].len() > 0,
    ensures
        i + 1 < g.len() && g[i + 1].len() > 0 ==> next_root_of(g, i) == g[i + 1][0],
        (i + 1 == g.len() || g[i + 1].len() == 0) && g[0].len() > 0 ==> next_root_of(g, i) == g[0][0],
        (i + 1 == g.len() || g[i + 1].len() == 0) && g[0].len() == 0 ==> next_root_of(g, i) == g[i][0],
{
}

} // verus!
