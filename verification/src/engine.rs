//! Offline render engines: the engine choice, and the format-0 Standard MIDI
//! File handed to the SFZ renderer, written by `midly`.
use vstd::prelude::*;
use midly::MetaMessage::{EndOfTrack, Tempo};
use midly::MidiMessage::{NoteOff, NoteOn};
use midly::TrackEventKind::{Meta, Midi};
use midly::Format::SingleTrack;
use midly::Timing::Metrical;
use midly::{Header, Smf, TrackEvent};
use crate::engine::TrackItem::{KeyDown, KeyUp, TempoSet, TrackEnd};

verus! {

/// Ticks per quarter note of the generated files.
pub const TPQ: u16 = 480;

/// Render engine chosen by the user.
#[derive(Debug, Clone, PartialEq)]
pub enum Engine {
    /// FluidSynth with the default SoundFont.
    FluidSynth,
    /// Sfizz with an SFZ file.
    Sfz(String),
    /// A native VST3 plugin (path of the bundle).
    Vst3(String),
    /// FluidSynth with an explicit SoundFont (per track).
    Sf2(String),
}

/// Readable name of an engine.
pub open spec fn spec_engine_label(e: Engine) -> Seq<char> {
    match e {
        Engine::FluidSynth => "fluidsynth"@,
        Engine::Sfz(_) => "sfz"@,
        Engine::Vst3(_) => "vst3"@,
        Engine::Sf2(_) => "sf2"@,
    }
}

impl Engine {
    /// Readable name of the engine (logs and replies).
    pub fn label(&self) -> (r: &str)
        ensures
            r@ == spec_engine_label(*self),
    {
        match self {
            Engine::FluidSynth => "fluidsynth",
            Engine::Sfz(_) => "sfz",
            Engine::Vst3(_) => "vst3",
            Engine::Sf2(_) => "sf2",
        }
    }
}

/// A note already placed on the tick grid: start tick, end tick, pitch and
/// velocity.
#[derive(Clone, Copy, Debug, PartialEq, Eq, Structural)]
pub struct TickSpan {
    pub start: u32,
    pub end: u32,
    pub pitch: u8,
    pub velocity: u8,
}

/// A note event: tick, note, velocity (0 for a note-off).
pub type NoteEv = (u32, u8, u8);

/// Velocity of a note-on: clamped to 1..=127.
pub open spec fn on_velocity(v: u8) -> u8 {
    if v < 1 { 1 } else if v > 127 { 127 } else { v }
}

/// The on/off events of the notes, in note order; notes whose end is not
/// after their start give none.
pub open spec fn span_events(s: Seq<TickSpan>) -> Seq<NoteEv>
    decreases s.len(),
{
    if s.len() == 0 {
        Seq::empty()
    } else {
        let n = s.last();
        let r = span_events(s.drop_last());
        if n.end <= n.start { r } else { r.push((n.start, n.pitch, on_velocity(n.velocity))).push((n.end, n.pitch, 0u8)) }
    }
}

/// Ordering key of an event: tick, then note-ons before note-offs, then note.
pub open spec fn ev_key(e: NoteEv) -> int {
    e.0 as int * 0x10000 + (if e.2 == 0 { 0x100int } else { 0int }) + e.1 as int
}

/// Position where an event goes in a sorted list: after every event whose
/// key is not greater (equal keys keep their order).
pub open spec fn key_insert_pos(s: Seq<NoteEv>, e: NoteEv) -> int
    decreases s.len(),
{
    if s.len() == 0 {
        0
    } else if ev_key(s.last()) <= ev_key(e) {
        s.len() as int
    } else {
        key_insert_pos(s.drop_last(), e)
    }
}

/// Stable sort of events by key.
pub open spec fn sort_by_key(s: Seq<NoteEv>) -> Seq<NoteEv>
    decreases s.len(),
{
    if s.len() == 0 {
        s
    } else {
        let sorted = sort_by_key(s.drop_last());
        sorted.insert(key_insert_pos(sorted, s.last()), s.last())
    }
}

/// Keys are non-decreasing.
pub open spec fn keys_sorted(s: Seq<NoteEv>) -> bool {
    forall|i: int, j: int| 0 <= i <= j < s.len() ==> ev_key(s[i]) <= ev_key(s[j])
}

proof fn lemma_key_insert_pos(s: Seq<NoteEv>, e: NoteEv)
    requires
        keys_sorted(s),
    ensures
        0 <= key_insert_pos(s, e) <= s.len(),
        forall|i: int| 0 <= i < key_insert_pos(s, e) ==> ev_key(s[i]) <= ev_key(e),
        forall|i: int| key_insert_pos(s, e) <= i < s.len() ==> ev_key(s[i]) > ev_key(e),
    decreases s.len(),
{
    if s.len() > 0 {
        let d = s.drop_last();
        assert(keys_sorted(d));
        if ev_key(s.last()) > ev_key(e) {
            lemma_key_insert_pos(d, e);
            assert forall|i: int| 0 <= i < key_insert_pos(s, e) implies ev_key(s[i]) <= ev_key(e) by {
                assert(s[i] == d[i]);
            }
            assert forall|i: int| key_insert_pos(s, e) <= i < s.len() implies ev_key(s[i]) > ev_key(e) by {
                if i < s.len() - 1 {
                    assert(s[i] == d[i]);
                }
            }
        } else {
            assert forall|i: int| 0 <= i < key_insert_pos(s, e) implies ev_key(s[i]) <= ev_key(e) by {
                assert(ev_key(s[i]) <= ev_key(s[s.len() - 1]));
            }
        }
    }
}

/// Sorting orders the keys and keeps the events (a permutation).
pub proof fn sort_by_key_sorted(s: Seq<NoteEv>)
    ensures
        keys_sorted(sort_by_key(s)),
        sort_by_key(s).to_multiset() == s.to_multiset(),
    decreases s.len(),
{
    if s.len() > 0 {
        let prev = s.drop_last();
        sort_by_key_sorted(prev);
        let sorted = sort_by_key(prev);
        let e = s.last();
        lemma_key_insert_pos(sorted, e);
        let p = key_insert_pos(sorted, e);
        let r = sorted.insert(p, e);
        assert forall|i: int, j: int| 0 <= i <= j < r.len() implies ev_key(r[i]) <= ev_key(r[j]) by {
            if i < p && j < p {
            } else if i < p && j == p {
            } else if i < p {
                assert(r[j] == sorted[j - 1]);
            } else if i == p && j > p {
                assert(r[j] == sorted[j - 1]);
            } else if i > p {
                assert(r[i] == sorted[i - 1]);
                assert(r[j] == sorted[j - 1]);
            }
        }
        assert(s == prev.push(e));
        vstd::seq_lib::to_multiset_insert(sorted, p, e);
        vstd::seq_lib::to_multiset_build(prev, e);
    }
}

/// An event of the track handed to the writer: the tempo meta event
/// (microseconds per quarter note), a note-on or a note-off (channel, key,
/// velocity), the end-of-track meta event.
#[derive(Clone, Copy, Debug, PartialEq, Eq, Structural)]
pub enum TrackItem {
    TempoSet(u32),
    KeyDown(u8, u8, u8),
    KeyUp(u8, u8, u8),
    TrackEnd,
}

/// A track event: delta time in ticks, then the event.
pub type SmfItem = (u32, TrackItem);

/// The note event of a sorted event at `delta` ticks from the previous one;
/// the channel is the note clamped to 15, a velocity of 0 makes a note-off.
pub open spec fn note_item(e: NoteEv, delta: u32) -> SmfItem {
    let ch: u8 = if e.1 > 15 { 15u8 } else { e.1 };
    (delta, if e.2 > 0 { TrackItem::KeyDown(ch, e.1, e.2) } else { TrackItem::KeyUp(ch, e.1, e.2) })
}

/// Delta-timed note events of sorted events, starting from tick `prev`.
pub open spec fn delta_events(s: Seq<NoteEv>, prev: u32) -> Seq<SmfItem>
    decreases s.len(),
{
    if s.len() == 0 {
        Seq::empty()
    } else {
        let e = s[0];
        seq![note_item(e, (e.0 - prev) as u32)] + delta_events(s.drop_first(), e.0)
    }
}

/// Microseconds per quarter note at `tempo` BPM (at least 1 BPM).
pub open spec fn tempo_us_of(tempo: u32) -> u32 {
    (60_000_000int / (if tempo < 1 { 1int } else { tempo as int })) as u32
}

/// The bytes `midly` writes (`Smf::write_std` into a `Vec`) for a format-0
/// file with metrical timing `tpq` and one track made of `items`; `None`
/// when the writer reports an error.
pub uninterp spec fn midly_smf0_bytes(tpq: u16, items: Seq<SmfItem>) -> Option<Seq<u8>>;

/// `midly::Smf::write_std` on a single-track, format-0 `Smf`. Each item
/// becomes the track event of the same kind with the same delta, in order
/// (`u28`, `u4`, `u7` and `u24` are built with `From`, as the crate does);
/// the result is the named bytes of the arguments.
#[verifier::external_body]
fn midly_write_smf0(tpq: u16, items: &Vec<SmfItem>) -> (r: Option<Vec<u8>>)
    ensures
        match r {
            Some(b) => midly_smf0_bytes(tpq, items@) == Some(b@),
            None => midly_smf0_bytes(tpq, items@) is None,
        },
{
    let mut buf = vec![];
    let tracks = vec![items.iter().map(|&(d, k)| TrackEvent { delta: d.into(), kind: match k {
        TempoSet(us) => Meta(Tempo(us.into())),
        KeyDown(c, n, v) => Midi { channel: c.into(), message: NoteOn { key: n.into(), vel: v.into() } },
        KeyUp(c, n, v) => Midi { channel: c.into(), message: NoteOff { key: n.into(), vel: v.into() } },
        TrackEnd => Meta(EndOfTrack),
    } }).collect()];
    Smf { header: Header::new(SingleTrack, Metrical(tpq.into())), tracks }.write_std(&mut buf).is_ok().then_some(buf)
}

/// The track of a file for notes on the tick grid at `tempo` BPM: the
/// tempo meta event, the note events in key order with their deltas, the
/// end-of-track meta event, the two meta events at delta 0.
pub open spec fn smf0_items(notes: Seq<TickSpan>, tempo: u32) -> Seq<SmfItem> {
    seq![(0u32, TrackItem::TempoSet(tempo_us_of(tempo)))] + delta_events(sort_by_key(span_events(notes)), 0) + seq![
        (0u32, TrackItem::TrackEnd),
    ]
}

/// The file for notes on the tick grid at `tempo` BPM: the bytes `midly`
/// writes for the track `smf0_items`; empty when the writer fails.
pub open spec fn spec_smf_from_notes(notes: Seq<TickSpan>, tempo: u32) -> Seq<u8> {
    match midly_smf0_bytes(TPQ, smf0_items(notes, tempo)) {
        Some(b) => b,
        None => Seq::empty(),
    }
}

fn build_span_events(notes: &[TickSpan]) -> (r: Vec<NoteEv>)
    ensures
        r@ == span_events(notes@),
{
    let mut out: Vec<NoteEv> = Vec::new();
    let mut i: usize = 0;
    while i < notes.len()
        invariant
            i <= notes@.len(),
            out@ == span_events(notes@.subrange(0, i as int)),
        decreases notes@.len() - i,
    {
        let n = notes[i];
        proof {
            let s = notes@.subrange(0, i + 1);
            assert(s.drop_last() =~= notes@.subrange(0, i as int));
            assert(s.last() == n);
        }
        if n.end > n.start {
            let vel = if n.velocity < 1 { 1u8 } else if n.velocity > 127 { 127u8 } else { n.velocity };
            out.push((n.start, n.pitch, vel));
            out.push((n.end, n.pitch, 0u8));
        }
        i = i + 1;
    }
    assert(notes@.subrange(0, notes@.len() as int) =~= notes@);
    out
}

fn key_gt(a: NoteEv, b: NoteEv) -> (r: bool)
    ensures
        r == (ev_key(a) > ev_key(b)),
{
    let oa: u8 = if a.2 == 0 { 1 } else { 0 };
    let ob: u8 = if b.2 == 0 { 1 } else { 0 };
    a.0 > b.0 || (a.0 == b.0 && (oa > ob || (oa == ob && a.1 > b.1)))
}

fn sort_note_events(evs: &Vec<NoteEv>) -> (r: Vec<NoteEv>)
    ensures
        r@ == sort_by_key(evs@),
{
    let mut out: Vec<NoteEv> = Vec::new();
    let mut k: usize = 0;
    assert(evs@.subrange(0, 0) =~= Seq::<NoteEv>::empty());
    while k < evs.len()
        invariant
            k <= evs@.len(),
            out@ == sort_by_key(evs@.subrange(0, k as int)),
        decreases evs@.len() - k,
    {
        let e = evs[k];
        let mut p = out.len();
        assert(out@.subrange(0, p as int) =~= out@);
        while p > 0 && key_gt(out[p - 1], e)
            invariant
                p <= out@.len(),
                key_insert_pos(out@, e) == key_insert_pos(out@.subrange(0, p as int), e),
            decreases p,
        {
            proof {
                let sub = out@.subrange(0, p as int);
                assert(sub.drop_last() =~= out@.subrange(0, p - 1));
            }
            p = p - 1;
        }
        proof {
            let pre = evs@.subrange(0, k as int);
            let post = evs@.subrange(0, k + 1);
            assert(post.drop_last() =~= pre);
            assert(post.last() == e);
        }
        out.insert(p, e);
        k = k + 1;
    }
    assert(evs@.subrange(0, evs@.len() as int) =~= evs@);
    out
}

proof fn lemma_sorted_ticks(s: Seq<NoteEv>, i: int, j: int)
    requires
        keys_sorted(s),
        0 <= i <= j < s.len(),
    ensures
        s[i].0 <= s[j].0,
{
    assert(ev_key(s[i]) <= ev_key(s[j]));
}

/// Format-0 Standard MIDI File of notes given on the tick grid (480 ticks
/// per quarter note), with the tempo meta event and end of track; empty if
/// the writer fails.
pub fn smf_from_notes(notes: &[TickSpan], tempo: u32) -> (r: Vec<u8>)
    ensures
        r@ == spec_smf_from_notes(notes@, tempo),
{
    let t = if tempo < 1 { 1u64 } else { tempo as u64 };
    let tempo_us = (60_000_000u64 / t) as u32;
    let evs = build_span_events(notes);
    let sorted = sort_note_events(&evs);
    proof {
        sort_by_key_sorted(evs@);
    }
    let mut out: Vec<SmfItem> = Vec::new();
    let mut prev: u32 = 0;
    let mut i: usize = 0;
    assert(sorted@.subrange(0, sorted@.len() as int) =~= sorted@);
    while i < sorted.len()
        invariant
            keys_sorted(sorted@),
            i <= sorted@.len(),
            i > 0 ==> prev == sorted@[i - 1].0,
            i == 0 ==> prev == 0,
            out@ + delta_events(sorted@.subrange(i as int, sorted@.len() as int), prev)
                == delta_events(sorted@, 0),
        decreases sorted@.len() - i,
    {
        let e = sorted[i];
        if i > 0 {
            proof {
                lemma_sorted_ticks(sorted@, i - 1, i as int);
            }
        }
        let ch = if e.1 > 15 { 15u8 } else { e.1 };
        let item: SmfItem = (e.0 - prev, if e.2 > 0 { TrackItem::KeyDown(ch, e.1, e.2) } else { TrackItem::KeyUp(ch, e.1, e.2) });
        proof {
            let rest = sorted@.subrange(i as int, sorted@.len() as int);
            assert(rest[0] == e);
            assert(rest.drop_first() =~= sorted@.subrange(i + 1, sorted@.len() as int));
            assert(delta_events(rest, prev) == seq![item] + delta_events(rest.drop_first(), e.0));
        }
        out.push(item);
        proof {
            assert(out@ + delta_events(sorted@.subrange(i + 1, sorted@.len() as int), e.0)
                =~= delta_events(sorted@, 0));
        }
        prev = e.0;
        i = i + 1;
    }
    proof {
        assert(sorted@.subrange(sorted@.len() as int, sorted@.len() as int) =~= Seq::<NoteEv>::empty());
        assert(out@ =~= delta_events(sorted@, 0));
    }
    let mut items: Vec<SmfItem> = vec![(0u32, TrackItem::TempoSet(tempo_us))];
    items.append(&mut out);
    items.push((0u32, TrackItem::TrackEnd));
    assert(items@ =~= smf0_items(notes@, tempo));
    match midly_write_smf0(TPQ, &items) {
        Some(b) => b,
        None => Vec::new(),
    }
}

} // verus!
