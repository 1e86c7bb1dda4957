//! Keyboard input: the notes held by the pianist (arrival order kept), the
//! echo of notes and sustain towards the selected track, the monitoring
//! route, and the recording of time-stamped notes.
use vstd::prelude::*;
use std::collections::HashMap;
use crate::mpe::{MpeState, MpeTarget, status, effective_bend, pitch_bend_message, channel_pressure_message,
    timbre_message, spec_pitch_bend_message, spec_channel_pressure_message, spec_cc_message,
    spec_effective_bend, msgs_view};

verus! {

broadcast use vstd::std_specs::hash::group_hash_axioms;

/// GM drum channel (10 counted from 1): never part of chord recognition.
pub const DRUM_CHANNEL: u8 = 9;

/// Echo of the pianist's notes towards the selected track.
#[derive(Clone, Copy, Debug, PartialEq, Eq, Structural)]
pub struct EchoConfig {
    pub enabled: bool,
    /// Channel of the selected track (None: no track selected).
    pub channel: Option<u8>,
}

impl Default for EchoConfig {
    fn default() -> (r: EchoConfig)
        ensures
            r == (EchoConfig { enabled: false, channel: None }),
    {
        EchoConfig { enabled: false, channel: None }
    }
}

/// Kind of a channel message: the high nibble of the status byte.
pub open spec fn kind(msg: Seq<u8>) -> u8 {
    msg[0] & 0xF0
}

/// Channel of a channel message: the low nibble of the status byte.
pub open spec fn chan(msg: Seq<u8>) -> u8 {
    msg[0] & 0x0F
}

/// A note-on with velocity zero (or no velocity byte meaning 127) turns
/// into a note-off: whether a note message presses a key.
pub open spec fn presses(msg: Seq<u8>) -> bool {
    kind(msg) == 0x90 && (if msg.len() > 2 { msg[2] > 0 } else { true })
}

/// Held notes after one incoming message: note-on appends the pitch when
/// absent, note-off (or note-on velocity 0) removes it; drum channel, other
/// messages and messages shorter than two bytes change nothing.
pub open spec fn spec_apply_midi(active: Seq<u8>, msg: Seq<u8>) -> Seq<u8> {
    if msg.len() < 2 || chan(msg) == DRUM_CHANNEL || (kind(msg) != 0x90 && kind(msg) != 0x80) {
        active
    } else if presses(msg) {
        if active.contains(msg[1]) { active } else { active.push(msg[1]) }
    } else {
        without(active, msg[1])
    }
}

/// `s` with every occurrence of `p` removed, the rest in order.
pub open spec fn without(s: Seq<u8>, p: u8) -> Seq<u8>
    decreases s.len(),
{
    if s.len() == 0 {
        s
    } else if s.last() == p {
        without(s.drop_last(), p)
    } else {
        without(s.drop_last(), p).push(s.last())
    }
}

/// No pitch occurs twice.
pub open spec fn no_dups(s: Seq<u8>) -> bool {
    forall|i: int, j: int| 0 <= i < j < s.len() ==> s[i] != s[j]
}

/// What `without` keeps comes from `s` and differs from `p`; it keeps a
/// sequence free of duplicates free of them.
pub proof fn lemma_without(s: Seq<u8>, p: u8)
    ensures
        forall|k: int| 0 <= k < without(s, p).len() ==> s.contains(#[trigger] without(s, p)[k]) && without(s, p)[k] != p,
        no_dups(s) ==> no_dups(without(s, p)),
        !s.contains(p) ==> without(s, p) == s,
    decreases s.len(),
{
    if s.len() > 0 {
        let t = s.drop_last();
        lemma_without(t, p);
        let w = without(t, p);
        assert forall|k: int| 0 <= k < without(s, p).len() implies s.contains(#[trigger] without(s, p)[k]) && without(s, p)[k] != p by {
            if k < w.len() {
                assert(t.contains(w[k]));
                let j = choose|j: int| 0 <= j < t.len() && t[j] == w[k];
                assert(s[j] == w[k]);
            } else {
                assert(s[s.len() - 1] == s.last());
            }
        }
        if no_dups(s) {
            assert(no_dups(t));
            if s.last() != p {
                assert forall|i: int, j: int| 0 <= i < j < without(s, p).len() implies without(s, p)[i] != without(s, p)[j] by {
                    if j == w.len() {
                        assert(t.contains(w[i]));
                        let m = choose|m: int| 0 <= m < t.len() && t[m] == w[i];
                        assert(s[m] == t[m]);
                        assert(s[s.len() - 1] == s.last());
                    }
                }
            }
        }
        if !s.contains(p) {
            assert(s.last() != p) by {
                assert(s[s.len() - 1] == s.last());
            }
            assert(!t.contains(p)) by {
                if t.contains(p) {
                    let m = choose|m: int| 0 <= m < t.len() && t[m] == p;
                    assert(s[m] == p);
                }
            }
            assert(s == t.push(s.last()));
        }
    }
}

/// The held notes never hold a pitch twice, whatever message arrives.
pub proof fn lemma_apply_midi_no_dups(active: Seq<u8>, msg: Seq<u8>)
    requires
        no_dups(active),
    ensures
        no_dups(spec_apply_midi(active, msg)),
{
    lemma_without(active, if msg.len() >= 2 { msg[1] } else { 0u8 });
    if msg.len() >= 2 && presses(msg) && !active.contains(msg[1]) {
        let r = active.push(msg[1]);
        assert forall|i: int, j: int| 0 <= i < j < r.len() implies r[i] != r[j] by {
            if j == active.len() {
                assert(active[i] == r[i]);
            }
        }
    }
}

/// Note-on and note-off status bytes keep their kind and channel apart.
proof fn lemma_note_status(ch: u8)
    requires
        ch < 16,
    ensures
        (0x90u8 | ch) & 0xF0 == 0x90,
        (0x90u8 | ch) & 0x0F == ch,
        (0x80u8 | ch) & 0xF0 == 0x80,
        (0x80u8 | ch) & 0x0F == ch,
{
    assert((0x90u8 | ch) & 0xF0 == 0x90 && (0x90u8 | ch) & 0x0F == ch && (0x80u8 | ch) & 0xF0 == 0x80
        && (0x80u8 | ch) & 0x0F == ch) by (bit_vector)
        requires
            ch < 16;
}

/// Pressing a key that is not held, then releasing it, gives back the held
/// notes as they were (outside the drum channel).
pub proof fn press_release_restores(active: Seq<u8>, ch: u8, pitch: u8, velocity: u8)
    requires
        !active.contains(pitch),
        ch < 16,
        ch != DRUM_CHANNEL,
        velocity > 0,
    ensures
        spec_apply_midi(spec_apply_midi(active, seq![0x90u8 | ch, pitch, velocity]), seq![0x80u8 | ch, pitch, 0u8]) == active,
{
    lemma_note_status(ch);
    let pressed = active.push(pitch);
    assert(spec_apply_midi(active, seq![0x90u8 | ch, pitch, velocity]) == pressed);
    assert(pressed.drop_last() == active);
    lemma_without(active, pitch);
}

/// Recording a press of a key not held, then its release, adds one closed
/// note with both times and leaves the held keys as they were.
pub proof fn rec_press_release(notes: Seq<RecNote>, held: Map<u8, usize>, ch: u8, pitch: u8, velocity: u8, t_on: u64, t_off: u64)
    requires
        rec_wf(notes, held),
        !held.contains_key(pitch),
        notes.len() < usize::MAX,
        ch < 16,
        velocity > 0,
    ensures
        ({
            let (n1, h1) = spec_apply_rec(notes, held, seq![0x90u8 | ch, pitch, velocity], t_on);
            let (n2, h2) = spec_apply_rec(n1, h1, seq![0x80u8 | ch, pitch, 0u8], t_off);
            n2 == notes.push(RecNote { pitch, on_ms: t_on, off_ms: Some(t_off) }) && h2 == held
        }),
{
    lemma_note_status(ch);
    let n1 = notes.push(RecNote { pitch, on_ms: t_on, off_ms: None });
    let h1 = held.insert(pitch, notes.len() as usize);
    assert(spec_apply_rec(notes, held, seq![0x90u8 | ch, pitch, velocity], t_on) == (n1, h1));
    assert(h1[pitch] as int == notes.len());
    assert(n1.update(notes.len() as int, RecNote { off_ms: Some(t_off), ..n1[notes.len() as int] })
        =~= notes.push(RecNote { pitch, on_ms: t_on, off_ms: Some(t_off) }));
    assert(h1.remove(pitch) =~= held);
}

/// Applies an incoming MIDI message to the held notes (arrival order kept).
pub fn apply_midi_message(active: &mut Vec<u8>, msg: &[u8])
    ensures
        final(active)@ == spec_apply_midi(old(active)@, msg@),
        no_dups(old(active)@) ==> no_dups(final(active)@),
{
    proof {
        if no_dups(active@) {
            lemma_apply_midi_no_dups(active@, msg@);
        }
    }
    if msg.len() < 2 {
        return;
    }
    let st = msg[0];
    let channel = st & 0x0F;
    if channel == DRUM_CHANNEL {
        return;
    }
    let high = st & 0xF0;
    let pitch = msg[1];
    let is_on = if high == 0x90 {
        if msg.len() > 2 { msg[2] > 0 } else { true }
    } else if high == 0x80 {
        false
    } else {
        return;
    };
    if is_on {
        let mut found = false;
        let mut i: usize = 0;
        while i < active.len()
            invariant
                i <= active@.len(),
                found == exists|k: int| 0 <= k < i && active@[k] == pitch,
            decreases active@.len() - i,
        {
            if active[i] == pitch {
                found = true;
            }
            i = i + 1;
        }
        if !found {
            active.push(pitch);
        }
    } else {
        let ghost orig = active@;
        let mut kept: Vec<u8> = Vec::new();
        let mut i: usize = 0;
        while i < active.len()
            invariant
                i <= active@.len(),
                active@ == orig,
                kept@ == without(orig.subrange(0, i as int), pitch),
            decreases active@.len() - i,
        {
            let p = active[i];
            proof {
                let s = orig.subrange(0, i + 1);
                assert(s.drop_last() == orig.subrange(0, i as int));
                assert(s.last() == orig[i as int]);
            }
            if p != pitch {
                kept.push(p);
            }
            i = i + 1;
        }
        assert(orig.subrange(0, orig.len() as int) == orig);
        *active = kept;
    }
}

/// Echo of a message on the selected track's channel: notes and the
/// sustain pedal (CC64) are relayed with their channel replaced; nothing
/// when the echo is off, no track is selected, or the message is another one.
pub open spec fn spec_echo_message(msg: Seq<u8>, echo: EchoConfig) -> Option<Seq<u8>> {
    if !echo.enabled || msg.len() < 2 || echo.channel is None {
        None
    } else {
        let is_note = kind(msg) == 0x90 || kind(msg) == 0x80;
        let is_sustain = kind(msg) == 0xB0 && msg.len() >= 3 && msg[1] == 64;
        if !is_note && !is_sustain {
            None
        } else {
            Some(msg.update(0, status(kind(msg), echo.channel->0)))
        }
    }
}

fn rechannel(msg: &[u8], channel: u8) -> (r: Vec<u8>)
    requires
        msg@.len() >= 1,
    ensures
        r@ == msg@.update(0, status(kind(msg@), channel)),
{
    let mut out: Vec<u8> = Vec::new();
    let mut i: usize = 0;
    while i < msg.len()
        invariant
            i <= msg@.len(),
            out@ == msg@.subrange(0, i as int),
        decreases msg@.len() - i,
    {
        out.push(msg[i]);
        proof {
            assert(msg@.subrange(0, i + 1) == msg@.subrange(0, i as int).push(msg@[i as int]));
        }
        i = i + 1;
    }
    assert(msg@.subrange(0, msg@.len() as int) == msg@);
    let high = msg[0] & 0xF0;
    out.set(0, high | (channel & 0x0F));
    out
}

fn relayed(msg: &[u8]) -> (r: bool)
    requires
        msg@.len() >= 2,
    ensures
        r == (kind(msg@) == 0x90 || kind(msg@) == 0x80 || (kind(msg@) == 0xB0 && msg@.len() >= 3 && msg@[1] == 64)),
{
    let high = msg[0] & 0xF0;
    high == 0x90 || high == 0x80 || (high == 0xB0 && msg.len() >= 3 && msg[1] == 64)
}

/// The message relayed by the echo, if any.
pub fn echo_message(msg: &[u8], echo: &EchoConfig) -> (r: Option<Vec<u8>>)
    ensures
        match r {
            Some(v) => spec_echo_message(msg@, *echo) == Some(v@),
            None => spec_echo_message(msg@, *echo) is None,
        },
{
    if !echo.enabled || msg.len() < 2 {
        return None;
    }
    let channel = match echo.channel {
        Some(c) => c,
        None => {
            return None;
        },
    };
    if !relayed(msg) {
        return None;
    }
    Some(rechannel(msg, channel))
}

/// Target channel of the expression: the echo's channel when the echo is
/// on, otherwise the explicit channel, otherwise channel 0.
pub open spec fn spec_resolve_mpe_channel(mpe: MpeState, echo: EchoConfig) -> u8 {
    if echo.enabled && echo.channel is Some {
        echo.channel->0
    } else {
        match mpe.channel {
            Some(c) => c,
            None => 0,
        }
    }
}

/// Channel on which modulations and monitored notes are sent.
pub fn resolve_mpe_channel(mpe: &MpeState, echo: &EchoConfig) -> (r: u8)
    ensures
        r == spec_resolve_mpe_channel(*mpe, *echo),
{
    if echo.enabled {
        if let Some(ch) = echo.channel {
            return ch;
        }
    }
    match mpe.channel {
        Some(c) => c,
        None => 0,
    }
}

/// Output that plays the monitored notes.
#[derive(Clone, Copy, Debug, PartialEq, Eq, Structural)]
pub enum OutputTarget {
    Main,
    Fluid,
}

/// FluidSynth only while monitoring is on with the FluidSynth target;
/// the main output otherwise (echo, monitoring, or plain thru).
pub open spec fn spec_monitor_output_target(mpe: MpeState) -> OutputTarget {
    if mpe.enabled && mpe.target == MpeTarget::Fluid {
        OutputTarget::Fluid
    } else {
        OutputTarget::Main
    }
}

/// Output used for the notes played on the keyboard.
pub fn monitor_output_target(mpe: &MpeState, echo: &EchoConfig) -> (r: OutputTarget)
    ensures
        r == spec_monitor_output_target(*mpe),
{
    if mpe.enabled && mpe.target == MpeTarget::Fluid {
        OutputTarget::Fluid
    } else {
        OutputTarget::Main
    }
}

/// Monitoring: with the echo on, the echo's message; otherwise notes and
/// sustain on the resolved channel (the pianist always hears the notes).
pub open spec fn spec_monitor_message(msg: Seq<u8>, mpe: MpeState, echo: EchoConfig) -> Option<Seq<u8>> {
    if echo.enabled {
        spec_echo_message(msg, echo)
    } else if msg.len() < 2 {
        None
    } else {
        let is_note = kind(msg) == 0x90 || kind(msg) == 0x80;
        let is_sustain = kind(msg) == 0xB0 && msg.len() >= 3 && msg[1] == 64;
        if !is_note && !is_sustain {
            None
        } else {
            Some(msg.update(0, status(kind(msg), spec_resolve_mpe_channel(mpe, echo))))
        }
    }
}

/// The message sent back to the keyboard's sound for an incoming message.
pub fn monitor_message(msg: &[u8], mpe: &MpeState, echo: &EchoConfig) -> (r: Option<Vec<u8>>)
    ensures
        match r {
            Some(v) => spec_monitor_message(msg@, *mpe, *echo) == Some(v@),
            None => spec_monitor_message(msg@, *mpe, *echo) is None,
        },
{
    if echo.enabled {
        return echo_message(msg, echo);
    }
    if msg.len() < 2 {
        return None;
    }
    let channel = resolve_mpe_channel(mpe, echo);
    if !relayed(msg) {
        return None;
    }
    Some(rechannel(msg, channel))
}

/// Expression sent after a relayed note: effective bend (manual bend plus
/// the vibrato offset), pressure and timbre on the resolved channel;
/// nothing when monitoring is off.
pub open spec fn spec_mpe_expression_out(mpe: MpeState, echo: EchoConfig, lfo_offset: i32) -> Seq<Seq<u8>> {
    if !mpe.enabled {
        Seq::empty()
    } else {
        let ch = spec_resolve_mpe_channel(mpe, echo);
        seq![
            spec_pitch_bend_message(ch, spec_effective_bend(mpe.bend, lfo_offset)),
            spec_channel_pressure_message(ch, mpe.pressure),
            spec_cc_message(ch, 74, mpe.timbre),
        ]
    }
}

/// Expression messages for the monitored channel; `lfo_offset` is the
/// vibrato offset at the current time.
pub fn mpe_expression_out(mpe: &MpeState, echo: &EchoConfig, lfo_offset: i32) -> (r: Vec<Vec<u8>>)
    ensures
        msgs_view(r@) == spec_mpe_expression_out(*mpe, *echo, lfo_offset),
{
    if !mpe.enabled {
        let r: Vec<Vec<u8>> = Vec::new();
        assert(msgs_view(r@) =~= Seq::<Seq<u8>>::empty());
        return r;
    }
    let ch = resolve_mpe_channel(mpe, echo);
    let r = vec![
        pitch_bend_message(ch, effective_bend(mpe, lfo_offset)),
        channel_pressure_message(ch, mpe.pressure),
        timbre_message(ch, mpe.timbre),
    ];
    assert(msgs_view(r@) =~= spec_mpe_expression_out(*mpe, *echo, lfo_offset));
    r
}

/// Sustain pedal state carried by a message: `Some(down)` for a CC64 with a
/// value byte (down when the value is at least 64), `None` otherwise.
pub open spec fn spec_sustain_pedal(msg: Seq<u8>) -> Option<bool> {
    if msg.len() >= 3 && kind(msg) == 0xB0 && msg[1] == 64 {
        Some(msg[2] >= 64)
    } else {
        None
    }
}

/// The sustain pedal position a message sets, if it is a sustain message.
pub fn sustain_pedal(msg: &[u8]) -> (r: Option<bool>)
    ensures
        r == spec_sustain_pedal(msg@),
{
    if msg.len() >= 3 && (msg[0] & 0xF0) == 0xB0 && msg[1] == 64 {
        Some(msg[2] >= 64)
    } else {
        None
    }
}

/// What the keyboard hears back for one incoming message: the monitored
/// message (if relayed), then the expression messages when monitoring is on.
pub open spec fn spec_monitor_outgoing(msg: Seq<u8>, mpe: MpeState, echo: EchoConfig, lfo_offset: i32) -> Seq<Seq<u8>> {
    let head = match spec_monitor_message(msg, mpe, echo) {
        Some(m) => seq![m],
        None => Seq::empty(),
    };
    head + spec_mpe_expression_out(mpe, echo, lfo_offset)
}

/// Messages to send back for an incoming message, in sending order.
pub fn monitor_outgoing(msg: &[u8], mpe: &MpeState, echo: &EchoConfig, lfo_offset: i32) -> (r: Vec<Vec<u8>>)
    ensures
        msgs_view(r@) == spec_monitor_outgoing(msg@, *mpe, *echo, lfo_offset),
{
    let mut out: Vec<Vec<u8>> = Vec::new();
    let first = monitor_message(msg, mpe, echo);
    let ghost head: Seq<Seq<u8>> = match spec_monitor_message(msg@, *mpe, *echo) {
        Some(m) => seq![m],
        None => Seq::empty(),
    };
    match first {
        Some(m) => {
            out.push(m);
        },
        None => {},
    }
    assert(msgs_view(out@) =~= head);
    let mut exprs = mpe_expression_out(mpe, echo, lfo_offset);
    let ghost ev = exprs@;
    out.append(&mut exprs);
    assert(msgs_view(out@) =~= head + msgs_view(ev));
    out
}

/// Note-on `[0x90|ch, pitch, min(vel, 127)]` or note-off `[0x80|ch, pitch, 0]`.
pub open spec fn spec_piano_note_message(pitch: u8, velocity: u8, on: bool, channel: u8) -> Seq<u8> {
    if on {
        seq![status(0x90, channel), pitch, if velocity > 127 { 127u8 } else { velocity }]
    } else {
        seq![status(0x80, channel), pitch, 0u8]
    }
}

/// Message for a key clicked on the on-screen piano.
pub fn piano_note_message(pitch: u8, velocity: u8, on: bool, channel: u8) -> (r: Vec<u8>)
    ensures
        r@ == spec_piano_note_message(pitch, velocity, on, channel),
{
    let r = if on {
        vec![0x90u8 | (channel & 0x0F), pitch, if velocity > 127 { 127u8 } else { velocity }]
    } else {
        vec![0x80u8 | (channel & 0x0F), pitch, 0u8]
    };
    assert(r@ =~= spec_piano_note_message(pitch, velocity, on, channel));
    r
}

/// Program change on a melodic channel; on the drum channel nothing unless
/// a bank is given, then bank select (CC0, CC32) and program change.
pub open spec fn spec_program_change_messages(out_channel: u8, program: u8, bank_msb: u8, bank_lsb: u8) -> Seq<Seq<u8>> {
    if out_channel != 9 {
        seq![seq![0xC0u8 | out_channel, program]]
    } else if bank_msb != 0 || bank_lsb != 0 {
        seq![seq![0xB9u8, 0u8, bank_msb], seq![0xB9u8, 32u8, bank_lsb], seq![0xC9u8, program]]
    } else {
        Seq::empty()
    }
}

/// Messages that make a track's instrument sound on its channel.
pub fn program_change_messages(out_channel: u8, program: u8, bank_msb: u8, bank_lsb: u8) -> (r: Vec<Vec<u8>>)
    ensures
        msgs_view(r@) == spec_program_change_messages(out_channel, program, bank_msb, bank_lsb),
{
    let mut out: Vec<Vec<u8>> = Vec::new();
    if out_channel != 9 {
        out.push(vec![0xC0u8 | out_channel, program]);
    } else if bank_msb != 0 || bank_lsb != 0 {
        out.push(vec![0xB9u8, 0u8, bank_msb]);
        out.push(vec![0xB9u8, 32u8, bank_lsb]);
        out.push(vec![0xC9u8, program]);
    }
    assert(msgs_view(out@) =~= spec_program_change_messages(out_channel, program, bank_msb, bank_lsb));
    out
}

/// A recorded note: pitch, press time and release time (None while held),
/// in ms from the start of the session.
#[derive(Clone, Copy, Debug, PartialEq, Eq, Structural)]
pub struct RecNote {
    pub pitch: u8,
    pub on_ms: u64,
    pub off_ms: Option<u64>,
}

/// Every held pitch points into the recorded notes.
pub open spec fn rec_wf(notes: Seq<RecNote>, held: Map<u8, usize>) -> bool {
    forall|p: u8| #[trigger] held.contains_key(p) ==> held[p] < notes.len()
}

/// Recording after one message: a press of a key not held starts a note
/// (a press of a held key is ignored), a release closes the held note and
/// frees the key, other messages change nothing.
pub open spec fn spec_apply_rec(notes: Seq<RecNote>, held: Map<u8, usize>, msg: Seq<u8>, now_ms: u64) -> (Seq<RecNote>, Map<u8, usize>) {
    if msg.len() < 2 || (kind(msg) != 0x90 && kind(msg) != 0x80) {
        (notes, held)
    } else {
        let pitch = msg[1];
        if presses(msg) {
            if held.contains_key(pitch) {
                (notes, held)
            } else {
                (notes.push(RecNote { pitch, on_ms: now_ms, off_ms: None }), held.insert(pitch, notes.len() as usize))
            }
        } else if held.contains_key(pitch) {
            let idx = held[pitch] as int;
            let closed = if notes[idx].off_ms is None {
                notes.update(idx, RecNote { off_ms: Some(now_ms), ..notes[idx] })
            } else {
                notes
            };
            (closed, held.remove(pitch))
        } else {
            (notes, held)
        }
    }
}

/// Applies a note message to a recording session (order of presses kept).
pub fn apply_rec_message(notes: &mut Vec<RecNote>, held: &mut HashMap<u8, usize>, msg: &[u8], now_ms: u64)
    requires
        rec_wf(old(notes)@, old(held)@),
    ensures
        (final(notes)@, final(held)@) == spec_apply_rec(old(notes)@, old(held)@, msg@, now_ms),
        rec_wf(final(notes)@, final(held)@),
{
    if msg.len() < 2 {
        return;
    }
    let high = msg[0] & 0xF0;
    let pitch = msg[1];
    let is_on = if high == 0x90 {
        if msg.len() > 2 { msg[2] > 0 } else { true }
    } else if high == 0x80 {
        false
    } else {
        return;
    };
    if is_on {
        if !held.contains_key(&pitch) {
            let n = notes.len();
            held.insert(pitch, n);
            notes.push(RecNote { pitch, on_ms: now_ms, off_ms: None });
        }
    } else {
        match held.get(&pitch) {
            Some(idx_ref) => {
                let idx = *idx_ref;
                let cur = notes[idx];
                if cur.off_ms.is_none() {
                    notes.set(idx, RecNote { pitch: cur.pitch, on_ms: cur.on_ms, off_ms: Some(now_ms) });
                }
                held.remove(&pitch);
            },
            None => {},
        }
    }
}


/// The clock's instant type, carried as an opaque value.
#[verifier::external_type_specification]
#[verifier::external_body]
pub struct ExInstant(std::time::Instant);

/// `std::time::Instant::now`: the current instant; nothing is stated of it.
#[verifier::external_body]
fn instant_now() -> std::time::Instant {
    std::time::Instant::now()
}

/// `Instant::elapsed` then `Duration::as_millis`, truncated to 64 bits:
/// the milliseconds since `start`. It depends on the clock, so nothing is
/// stated of the value.
#[verifier::external_body]
fn elapsed_ms(start: &std::time::Instant) -> u64 {
    start.elapsed().as_millis() as u64
}

/// A MIDI recording session: the reference instant, the recorded notes in
/// order of presses, and for each held key the index of its note.
pub struct RecSession {
    pub start: std::time::Instant,
    pub notes: Vec<RecNote>,
    pub held: HashMap<u8, usize>,
}

impl RecSession {
    /// Every held key points into the recorded notes.
    pub open spec fn wf(&self) -> bool {
        rec_wf(self.notes@, self.held@)
    }

    /// A session starting now, with nothing recorded and no key held.
    pub fn new() -> (r: RecSession)
        ensures
            r.notes@ == Seq::<RecNote>::empty(),
            r.held@ == Map::<u8, usize>::empty(),
            r.wf(),
    {
        RecSession { start: instant_now(), notes: Vec::new(), held: HashMap::new() }
    }

    /// Milliseconds elapsed since the start of the session (read from the clock).
    pub fn now_ms(&self) -> u64 {
        elapsed_ms(&self.start)
    }
}

} // verus!
