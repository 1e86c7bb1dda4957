//! MPE-style expression: 14-bit pitch bend, channel pressure, CC74 timbre,
//! the RPN sequence setting the bend range, and the shared expression state.
use vstd::prelude::*;

verus! {

/// Centre of the 14-bit pitch bend.
pub const BEND_CENTER: u16 = 8192;
/// Neutral CC74 timbre.
pub const TIMBRE_CENTER: u8 = 64;

/// Waveform of the vibrato LFO.
#[derive(Clone, Copy, Debug, PartialEq, Eq, Structural)]
pub enum LfoShape {
    Sin,
    Triangle,
    Square,
}

impl Default for LfoShape {
    fn default() -> (r: LfoShape)
        ensures
            r == LfoShape::Sin,
    {
        LfoShape::Sin
    }
}

/// Where the monitored notes sound: chosen automatically, the keyboard's
/// own synthesizer, or FluidSynth.
#[derive(Clone, Copy, Debug, PartialEq, Eq, Structural)]
pub enum MpeTarget {
    Auto,
    Roland,
    Fluid,
}

impl Default for MpeTarget {
    fn default() -> (r: MpeTarget)
        ensures
            r == MpeTarget::Auto,
    {
        MpeTarget::Auto
    }
}

/// Expression state (without the LFO waveform settings, which the caller keeps).
#[derive(Clone, Copy, Debug, PartialEq, Eq, Structural)]
pub struct MpeState {
    /// Monitoring active (the modal is open).
    pub enabled: bool,
    /// Current pitch bend (0-16383, centre 8192).
    pub bend: u16,
    /// Current channel pressure (0-127).
    pub pressure: u8,
    /// Current CC74 timbre (0-127).
    pub timbre: u8,
    /// Pitch-bend range in semitones (RPN 0).
    pub pitch_range_st: u8,
    pub target: MpeTarget,
    /// GM program set on the target channel.
    pub program: u8,
    /// Explicit target channel (None: automatic).
    pub channel: Option<u8>,
}

pub open spec fn default_mpe_state() -> MpeState {
    MpeState {
        enabled: false,
        bend: BEND_CENTER,
        pressure: 0,
        timbre: TIMBRE_CENTER,
        pitch_range_st: 48,
        target: MpeTarget::Auto,
        program: 0,
        channel: None,
    }
}

impl Default for MpeState {
    /// Disabled, neutral expression, range 48 semitones, automatic target.
    fn default() -> (r: MpeState)
        ensures
            r == default_mpe_state(),
    {
        MpeState {
            enabled: false,
            bend: BEND_CENTER,
            pressure: 0,
            timbre: TIMBRE_CENTER,
            pitch_range_st: 48,
            target: MpeTarget::Auto,
            program: 0,
            channel: None,
        }
    }
}

impl MpeState {
    /// Bend at the centre, no pressure, neutral timbre.
    pub open spec fn spec_is_neutral(&self) -> bool {
        self.bend == BEND_CENTER && self.pressure == 0 && self.timbre == TIMBRE_CENTER
    }

    /// True when the expression is neutral (nothing particular to send).
    pub fn is_neutral(&self) -> (r: bool)
        ensures
            r == self.spec_is_neutral(),
    {
        self.bend == BEND_CENTER && self.pressure == 0 && self.timbre == TIMBRE_CENTER
    }

    /// Resets the expression (bend centre, no pressure, neutral timbre) and
    /// keeps everything else.
    pub fn reset(&mut self)
        ensures
            final(self).spec_is_neutral(),
            *final(self) == (MpeState { bend: BEND_CENTER, pressure: 0, timbre: TIMBRE_CENTER, ..*old(self) }),
    {
        self.bend = BEND_CENTER;
        self.pressure = 0;
        self.timbre = TIMBRE_CENTER;
    }
}

/// A status byte: message kind in the high nibble, channel in the low one.
pub open spec fn status(kind: u8, channel: u8) -> u8 {
    kind | (channel & 0x0F)
}

/// Pitch bend `[0xE0|ch, lsb7, msb7]` of a value capped at 16383.
pub open spec fn spec_pitch_bend_message(channel: u8, v14: u16) -> Seq<u8> {
    let v: u16 = if v14 > 16383 { 16383 } else { v14 };
    seq![status(0xE0, channel), (v % 128) as u8, ((v / 128) % 128) as u8]
}

/// The two data bytes of a pitch bend give back the (capped) value:
/// `lsb + 128 * msb`, both below 128.
pub proof fn pitch_bend_roundtrip(channel: u8, v14: u16)
    ensures
        spec_pitch_bend_message(channel, v14)[1] < 128,
        spec_pitch_bend_message(channel, v14)[2] < 128,
        spec_pitch_bend_message(channel, v14)[1] + 128 * spec_pitch_bend_message(channel, v14)[2]
            == (if v14 > 16383 { 16383 } else { v14 as int }),
{
}

/// 14-bit pitch bend on a channel: `[0xE0|ch, lsb7, msb7]`, value capped at 16383.
pub fn pitch_bend_message(channel: u8, v14: u16) -> (r: Vec<u8>)
    ensures
        r@ == spec_pitch_bend_message(channel, v14),
{
    let v: u16 = if v14 > 16383 { 16383 } else { v14 };
    let r = vec![0xE0u8 | (channel & 0x0F), (v % 128) as u8, ((v / 128) % 128) as u8];
    assert(r@ =~= spec_pitch_bend_message(channel, v14));
    r
}

/// Channel pressure `[0xD0|ch, value]`, value capped at 127.
pub open spec fn spec_channel_pressure_message(channel: u8, value: u8) -> Seq<u8> {
    seq![status(0xD0, channel), if value > 127 { 127u8 } else { value }]
}

/// Channel pressure (aftertouch) on a channel, value capped at 127.
pub fn channel_pressure_message(channel: u8, value: u8) -> (r: Vec<u8>)
    ensures
        r@ == spec_channel_pressure_message(channel, value),
{
    let r = vec![0xD0u8 | (channel & 0x0F), if value > 127 { 127u8 } else { value }];
    assert(r@ =~= spec_channel_pressure_message(channel, value));
    r
}

/// Control change `[0xB0|ch, ctl, value]`, value capped at 127.
pub open spec fn spec_cc_message(channel: u8, ctl: u8, value: u8) -> Seq<u8> {
    seq![status(0xB0, channel), ctl, if value > 127 { 127u8 } else { value }]
}

/// Control change on a channel, value capped at 127.
pub fn cc_message(channel: u8, ctl: u8, value: u8) -> (r: Vec<u8>)
    ensures
        r@ == spec_cc_message(channel, ctl, value),
{
    let r = vec![0xB0u8 | (channel & 0x0F), ctl, if value > 127 { 127u8 } else { value }];
    assert(r@ =~= spec_cc_message(channel, ctl, value));
    r
}

/// CC74 (timbre / brightness) on a channel.
pub fn timbre_message(channel: u8, value: u8) -> (r: Vec<u8>)
    ensures
        r@ == spec_cc_message(channel, 74, value),
{
    cc_message(channel, 74, value)
}

/// One step of the expression resend while the modal is open, from the
/// last (channel, bend, pressure, timbre) sent and the current one (`None`
/// when the modal is closed): with the modal closed nothing is sent and
/// nothing is remembered; an unchanged expression sends nothing; a changed
/// one sends its pitch bend, channel pressure and timbre, and is remembered.
pub open spec fn spec_expression_tick(last: Option<(u8, u16, u8, u8)>, cur: Option<(u8, u16, u8, u8)>) -> (Option<(u8, u16, u8, u8)>, Seq<Seq<u8>>) {
    match cur {
        None => (None, Seq::empty()),
        Some(c) => if last == Some(c) {
            (last, Seq::empty())
        } else {
            (Some(c), seq![spec_pitch_bend_message(c.0, c.1), spec_channel_pressure_message(c.0, c.2), spec_cc_message(c.0, 74, c.3)])
        },
    }
}

/// The messages to resend on a tick of the expression modal, and what to
/// remember (see `spec_expression_tick`).
pub fn expression_tick(last: Option<(u8, u16, u8, u8)>, cur: Option<(u8, u16, u8, u8)>) -> (r: (Option<(u8, u16, u8, u8)>, Vec<Vec<u8>>))
    ensures
        r.0 == spec_expression_tick(last, cur).0,
        msgs_view(r.1@) == spec_expression_tick(last, cur).1,
{
    let c = match cur {
        None => {
            let out: Vec<Vec<u8>> = Vec::new();
            assert(msgs_view(out@) =~= Seq::<Seq<u8>>::empty());
            return (None, out);
        },
        Some(c) => c,
    };
    let same = match last {
        Some(l) => l.0 == c.0 && l.1 == c.1 && l.2 == c.2 && l.3 == c.3,
        None => false,
    };
    if same {
        let out: Vec<Vec<u8>> = Vec::new();
        assert(msgs_view(out@) =~= Seq::<Seq<u8>>::empty());
        return (last, out);
    }
    let out = vec![pitch_bend_message(c.0, c.1), channel_pressure_message(c.0, c.2), timbre_message(c.0, c.3)];
    assert(msgs_view(out@) =~= seq![spec_pitch_bend_message(c.0, c.1), spec_channel_pressure_message(c.0, c.2), spec_cc_message(c.0, 74, c.3)]);
    (Some(c), out)
}

/// RPN 0 (pitch-bend range): select RPN 0, data entry of the range (capped
/// at 127), then deselect (RPN 127/127).
pub open spec fn spec_rpn_pitch_range(channel: u8, semitones: u8) -> Seq<Seq<u8>> {
    let b = status(0xB0, channel);
    let st: u8 = if semitones > 127 { 127 } else { semitones };
    seq![seq![b, 101u8, 0u8], seq![b, 100u8, 0u8], seq![b, 6u8, st], seq![b, 38u8, 0u8], seq![b, 101u8, 127u8], seq![b, 100u8, 127u8]]
}

/// The views of a list of messages.
pub open spec fn msgs_view(v: Seq<Vec<u8>>) -> Seq<Seq<u8>> {
    v.map_values(|m: Vec<u8>| m@)
}

/// Sets the pitch-bend range (in semitones) of a channel with RPN 0.
pub fn rpn_pitch_range_messages(channel: u8, semitones: u8) -> (r: Vec<Vec<u8>>)
    ensures
        msgs_view(r@) == spec_rpn_pitch_range(channel, semitones),
{
    let st: u8 = if semitones > 127 { 127 } else { semitones };
    let b = 0xB0u8 | (channel & 0x0F);
    let r = vec![vec![b, 101u8, 0u8], vec![b, 100u8, 0u8], vec![b, 6u8, st], vec![b, 38u8, 0u8], vec![b, 101u8, 127u8], vec![b, 100u8, 127u8]];
    assert(msgs_view(r@) =~= spec_rpn_pitch_range(channel, semitones));
    r
}

/// Full expression for a channel: the bend range first when given, then
/// bend, pressure and timbre.
pub open spec fn spec_expression_messages(channel: u8, bend: u16, pressure: u8, timbre: u8, with_range: Option<u8>) -> Seq<Seq<u8>> {
    (match with_range {
        Some(st) => spec_rpn_pitch_range(channel, st),
        None => Seq::empty(),
    }) + seq![
        spec_pitch_bend_message(channel, bend),
        spec_channel_pressure_message(channel, pressure),
        spec_cc_message(channel, 74, timbre),
    ]
}

/// Expression messages for a channel (optional RPN range, bend, pressure, timbre).
pub fn expression_messages(channel: u8, bend: u16, pressure: u8, timbre: u8, with_range: Option<u8>) -> (r: Vec<Vec<u8>>)
    ensures
        msgs_view(r@) == spec_expression_messages(channel, bend, pressure, timbre, with_range),
{
    let mut out: Vec<Vec<u8>> = match with_range {
        Some(st) => rpn_pitch_range_messages(channel, st),
        None => Vec::new(),
    };
    let ghost first = out@;
    out.push(pitch_bend_message(channel, bend));
    out.push(channel_pressure_message(channel, pressure));
    out.push(timbre_message(channel, timbre));
    assert(msgs_view(out@) =~= spec_expression_messages(channel, bend, pressure, timbre, with_range));
    out
}

/// Manual bend plus an LFO offset, kept in 0..=16383.
pub open spec fn spec_effective_bend(bend: u16, lfo_offset: i32) -> u16 {
    let raw = bend as int + lfo_offset as int;
    if raw < 0 {
        0
    } else if raw > 16383 {
        16383
    } else {
        raw as u16
    }
}

/// Effective bend: the manual gesture plus the vibrato offset (computed by
/// the caller from the LFO at the current time), clamped to 0..=16383.
pub fn effective_bend(state: &MpeState, lfo_offset: i32) -> (r: u16)
    ensures
        r == spec_effective_bend(state.bend, lfo_offset),
        r <= 16383,
{
    let raw: i64 = state.bend as i64 + lfo_offset as i64;
    if raw < 0 {
        0
    } else if raw > 16383 {
        16383
    } else {
        raw as u16
    }
}

} // verus!
