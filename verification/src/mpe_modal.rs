//! The MPE modal: a partial change of the expression state sent by the
//! browser, and the batches of messages it triggers (receiver set-up on
//! opening, gestures while open, reset on closing, target switches).
use vstd::prelude::*;
use crate::mpe::{MpeState, MpeTarget, msgs_view, BEND_CENTER, TIMBRE_CENTER, rpn_pitch_range_messages, expression_messages,
    pitch_bend_message, channel_pressure_message, timbre_message, effective_bend, status, spec_rpn_pitch_range,
    spec_expression_messages, spec_pitch_bend_message, spec_channel_pressure_message, spec_cc_message, spec_effective_bend};
use crate::live_input::{EchoConfig, resolve_mpe_channel, spec_resolve_mpe_channel};

verus! {

/// A partial change of the expression state (absent fields are kept; the
/// LFO settings are kept by the caller).
#[derive(Clone, Copy, Debug, PartialEq, Eq, Structural)]
pub struct MpePatch {
    pub enabled: Option<bool>,
    pub bend: Option<u16>,
    pub pressure: Option<u8>,
    pub timbre: Option<u8>,
    pub pitch_range_st: Option<u8>,
    pub channel: Option<u8>,
    pub target: Option<MpeTarget>,
    pub program: Option<u8>,
}

/// The state after a patch.
pub open spec fn spec_patched(st: MpeState, p: MpePatch) -> MpeState {
    MpeState {
        enabled: match p.enabled { Some(v) => v, None => st.enabled },
        bend: match p.bend { Some(v) => v, None => st.bend },
        pressure: match p.pressure { Some(v) => v, None => st.pressure },
        timbre: match p.timbre { Some(v) => v, None => st.timbre },
        pitch_range_st: match p.pitch_range_st { Some(v) => v, None => st.pitch_range_st },
        target: match p.target { Some(v) => v, None => st.target },
        program: match p.program { Some(v) => v, None => st.program },
        channel: match p.channel { Some(v) => Some(v), None => st.channel },
    }
}

/// A batch of messages and whether it must go to FluidSynth whatever the
/// current target.
pub struct MpeBatch {
    pub msgs: Vec<Vec<u8>>,
    pub force_fluid: bool,
}

/// Program change on the target channel.
pub open spec fn pc_msg(ch: u8, program: u8) -> Seq<u8> {
    seq![0xC0u8 | ch, program]
}

/// Neutral expression (bend centre, no pressure, neutral timbre).
pub open spec fn neutral_msgs(ch: u8) -> Seq<Seq<u8>> {
    spec_expression_messages(ch, BEND_CENTER, 0, TIMBRE_CENTER, None)
}

/// The batches sent after a patch, in order (`ch` is the resolved target
/// channel of the new state):
/// 1. open and a program given: the program change;
/// 2. switching to FluidSynth: its set-up (bend range and program), forced
///    to FluidSynth; switching away from it: its neutral expression, forced;
/// 3. opening: bend range, the program when the sound is on FluidSynth,
///    the current expression and the sustain pedal; a gesture while open:
///    effective bend, pressure, timbre, and the bend range when it changed;
///    closing: the neutral expression.
pub open spec fn spec_mpe_batches(old: MpeState, p: MpePatch, echo: EchoConfig, main_is_fluid: bool, sustain: bool,
    lfo_offset: i32) -> Seq<(Seq<Seq<u8>>, bool)> {
    let st = spec_patched(old, p);
    let ch = spec_resolve_mpe_channel(st, echo);
    batch_program(st, p, ch) + batch_target(st, old.target, p, ch)
        + batch_expression(st, old.enabled, p, ch, main_is_fluid, sustain, lfo_offset)
}

/// Batch 1 (see `spec_mpe_batches`).
pub open spec fn batch_program(st: MpeState, p: MpePatch, ch: u8) -> Seq<(Seq<Seq<u8>>, bool)> {
    if st.enabled && p.program is Some { seq![(seq![pc_msg(ch, st.program)], false)] } else { Seq::empty() }
}

/// Batch 2 (see `spec_mpe_batches`).
pub open spec fn batch_target(st: MpeState, was_target: MpeTarget, p: MpePatch, ch: u8) -> Seq<(Seq<Seq<u8>>, bool)> {
    if st.enabled && st.target == MpeTarget::Fluid && p.target == Some(MpeTarget::Fluid) && was_target != MpeTarget::Fluid {
        seq![(spec_rpn_pitch_range(ch, st.pitch_range_st).push(pc_msg(ch, st.program)), true)]
    } else if st.enabled && was_target == MpeTarget::Fluid && st.target != MpeTarget::Fluid {
        seq![(neutral_msgs(ch), true)]
    } else {
        Seq::empty()
    }
}

/// Batch 3 (see `spec_mpe_batches`).
pub open spec fn batch_expression(st: MpeState, was_enabled: bool, p: MpePatch, ch: u8, main_is_fluid: bool, sustain: bool,
    lfo_offset: i32) -> Seq<(Seq<Seq<u8>>, bool)> {
    if st.enabled && !was_enabled {
        seq![(spec_rpn_pitch_range(ch, st.pitch_range_st)
            + (if st.target == MpeTarget::Fluid || main_is_fluid { seq![pc_msg(ch, st.program)] } else { Seq::empty() })
            + spec_expression_messages(ch, st.bend, st.pressure, st.timbre, None)
            + seq![seq![0xB0u8 | ch, 64u8, if sustain { 127u8 } else { 0u8 }]], false)]
    } else if st.enabled {
        seq![(seq![
            spec_pitch_bend_message(ch, spec_effective_bend(st.bend, lfo_offset)),
            spec_channel_pressure_message(ch, st.pressure),
            spec_cc_message(ch, 74, st.timbre),
        ] + (match p.pitch_range_st { Some(r) => spec_rpn_pitch_range(ch, r), None => Seq::empty() }), false)]
    } else if was_enabled {
        seq![(neutral_msgs(ch), false)]
    } else {
        Seq::empty()
    }
}

/// The view of a list of batches.
pub open spec fn batches_view(v: Seq<MpeBatch>) -> Seq<(Seq<Seq<u8>>, bool)> {
    v.map_values(|b: MpeBatch| (msgs_view(b.msgs@), b.force_fluid))
}

fn push_batch(out: &mut Vec<MpeBatch>, msgs: Vec<Vec<u8>>, force_fluid: bool)
    ensures
        batches_view(final(out)@) == batches_view(old(out)@).push((msgs_view(msgs@), force_fluid)),
{
    let ghost before = out@;
    let ghost m = msgs_view(msgs@);
    out.push(MpeBatch { msgs, force_fluid });
    assert(batches_view(out@) =~= batches_view(before).push((m, force_fluid)));
}

fn append_msgs(out: &mut Vec<Vec<u8>>, more: Vec<Vec<u8>>)
    ensures
        msgs_view(final(out)@) == msgs_view(old(out)@) + msgs_view(more@),
{
    let ghost a = out@;
    let ghost b = more@;
    let mut more = more;
    out.append(&mut more);
    assert(msgs_view(out@) =~= msgs_view(a) + msgs_view(b));
}

fn push_msg(out: &mut Vec<Vec<u8>>, m: Vec<u8>)
    ensures
        msgs_view(final(out)@) == msgs_view(old(out)@).push(m@),
{
    let ghost a = out@;
    out.push(m);
    assert(msgs_view(out@) =~= msgs_view(a).push(m@));
}

fn one_batch(msgs: Vec<Vec<u8>>, force_fluid: bool) -> (r: Vec<MpeBatch>)
    ensures
        batches_view(r@) == seq![(msgs_view(msgs@), force_fluid)],
{
    let mut out: Vec<MpeBatch> = Vec::new();
    push_batch(&mut out, msgs, force_fluid);
    assert(batches_view(out@) =~= seq![(msgs_view(msgs@), force_fluid)]);
    out
}

fn no_batch() -> (r: Vec<MpeBatch>)
    ensures
        batches_view(r@) == Seq::<(Seq<Seq<u8>>, bool)>::empty(),
{
    let out: Vec<MpeBatch> = Vec::new();
    assert(batches_view(out@) =~= Seq::<(Seq<Seq<u8>>, bool)>::empty());
    out
}

fn program_batch(st: &MpeState, p: &MpePatch, ch: u8) -> (r: Vec<MpeBatch>)
    ensures
        batches_view(r@) =~~= batch_program(*st, *p, ch),
{
    if st.enabled && p.program.is_some() {
        let m = vec![vec![0xC0u8 | ch, st.program]];
        assert(msgs_view(m@) =~= seq![pc_msg(ch, st.program)]);
        one_batch(m, false)
    } else {
        no_batch()
    }
}

fn target_batch(st: &MpeState, was_target: MpeTarget, p: &MpePatch, ch: u8) -> (r: Vec<MpeBatch>)
    ensures
        batches_view(r@) =~~= batch_target(*st, was_target, *p, ch),
{
    if st.enabled && st.target == MpeTarget::Fluid && p.target == Some(MpeTarget::Fluid) && was_target != MpeTarget::Fluid {
        let mut setup = rpn_pitch_range_messages(ch, st.pitch_range_st);
        push_msg(&mut setup, vec![0xC0u8 | ch, st.program]);
        one_batch(setup, true)
    } else if st.enabled && was_target == MpeTarget::Fluid && st.target != MpeTarget::Fluid {
        one_batch(expression_messages(ch, BEND_CENTER, 0, TIMBRE_CENTER, None), true)
    } else {
        no_batch()
    }
}

fn expression_batch(st: &MpeState, was_enabled: bool, p: &MpePatch, ch: u8, main_is_fluid: bool, sustain: bool, lfo_offset: i32)
    -> (r: Vec<MpeBatch>)
    ensures
        batches_view(r@) =~~= batch_expression(*st, was_enabled, *p, ch, main_is_fluid, sustain, lfo_offset),
{
    if st.enabled && !was_enabled {
        let mut setup = rpn_pitch_range_messages(ch, st.pitch_range_st);
        if st.target == MpeTarget::Fluid || main_is_fluid {
            push_msg(&mut setup, vec![0xC0u8 | ch, st.program]);
        }
        append_msgs(&mut setup, expression_messages(ch, st.bend, st.pressure, st.timbre, None));
        push_msg(&mut setup, vec![0xB0u8 | ch, 64u8, if sustain { 127u8 } else { 0u8 }]);
        one_batch(setup, false)
    } else if st.enabled {
        let mut msgs = vec![
            pitch_bend_message(ch, effective_bend(st, lfo_offset)),
            channel_pressure_message(ch, st.pressure),
            timbre_message(ch, st.timbre),
        ];
        match p.pitch_range_st {
            Some(rg) => {
                append_msgs(&mut msgs, rpn_pitch_range_messages(ch, rg));
            },
            None => {},
        }
        one_batch(msgs, false)
    } else if was_enabled {
        one_batch(expression_messages(ch, BEND_CENTER, 0, TIMBRE_CENTER, None), false)
    } else {
        no_batch()
    }
}

fn append_batches(out: &mut Vec<MpeBatch>, more: Vec<MpeBatch>)
    ensures
        batches_view(final(out)@) == batches_view(old(out)@) + batches_view(more@),
{
    let ghost a = out@;
    let ghost b = more@;
    let mut more = more;
    out.append(&mut more);
    assert(batches_view(out@) =~= batches_view(a) + batches_view(b));
}

/// Applies a patch from the modal: returns the new state and the batches
/// to send. `main_is_fluid` tells that the main output is FluidSynth,
/// `sustain` the current pedal position, `lfo_offset` the vibrato offset
/// of the new state at the current time.
pub fn mpe_update(old: &MpeState, p: &MpePatch, echo: &EchoConfig, main_is_fluid: bool, sustain: bool, lfo_offset: i32)
    -> (r: (MpeState, Vec<MpeBatch>))
    ensures
        r.0 == spec_patched(*old, *p),
        batches_view(r.1@) =~~= spec_mpe_batches(*old, *p, *echo, main_is_fluid, sustain, lfo_offset),
{
    let st = MpeState {
        enabled: match p.enabled { Some(v) => v, None => old.enabled },
        bend: match p.bend { Some(v) => v, None => old.bend },
        pressure: match p.pressure { Some(v) => v, None => old.pressure },
        timbre: match p.timbre { Some(v) => v, None => old.timbre },
        pitch_range_st: match p.pitch_range_st { Some(v) => v, None => old.pitch_range_st },
        target: match p.target { Some(v) => v, None => old.target },
        program: match p.program { Some(v) => v, None => old.program },
        channel: match p.channel { Some(v) => Some(v), None => old.channel },
    };
    let ch = resolve_mpe_channel(&st, echo);
    let mut out = program_batch(&st, p, ch);
    append_batches(&mut out, target_batch(&st, old.target, p, ch));
    append_batches(&mut out, expression_batch(&st, old.enabled, p, ch, main_is_fluid, sustain, lfo_offset));
    (st, out)
}

} // verus!
