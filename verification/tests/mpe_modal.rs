use chords_server_rs::live_input::EchoConfig;
use chords_server_rs::mpe::{MpeState, MpeTarget};
use chords_server_rs::mpe_modal::{mpe_update, MpeBatch, MpePatch};

fn patch() -> MpePatch {
    MpePatch { enabled: None, bend: None, pressure: None, timbre: None, pitch_range_st: None, channel: None, target: None, program: None }
}

fn msgs(b: &[MpeBatch]) -> Vec<(Vec<Vec<u8>>, bool)> {
    b.iter().map(|x| (x.msgs.clone(), x.force_fluid)).collect()
}

#[test]
fn opening_sets_range_expression_and_sustain() {
    let old = MpeState::default();
    let p = MpePatch { enabled: Some(true), ..patch() };
    let (st, b) = mpe_update(&old, &p, &EchoConfig::default(), false, true, 0);
    assert!(st.enabled);
    let b = msgs(&b);
    assert_eq!(b.len(), 1);
    let (m, forced) = &b[0];
    assert!(!forced);
    assert_eq!(m[0], vec![0xB0, 101, 0]);
    assert_eq!(m.last().unwrap(), &vec![0xB0, 64, 127]);
}

#[test]
fn a_gesture_sends_bend_pressure_and_timbre() {
    let old = MpeState { enabled: true, ..MpeState::default() };
    let p = MpePatch { bend: Some(10000), pressure: Some(90), ..patch() };
    let (st, b) = mpe_update(&old, &p, &EchoConfig::default(), false, false, -1000);
    assert_eq!(st.bend, 10000);
    assert_eq!(st.pressure, 90);
    assert_eq!(msgs(&b), vec![(vec![vec![0xE0, 40, 70], vec![0xD0, 90], vec![0xB0, 74, 64]], false)]);
}

#[test]
fn closing_sends_the_neutral_expression() {
    let old = MpeState { enabled: true, bend: 12000, pressure: 30, ..MpeState::default() };
    let p = MpePatch { enabled: Some(false), ..patch() };
    let (st, b) = mpe_update(&old, &p, &EchoConfig::default(), false, false, 0);
    assert!(!st.enabled);
    assert_eq!(st.bend, 12000);
    let b = msgs(&b);
    assert_eq!(b.len(), 1);
    assert_eq!(b[0].0[0], vec![0xE0, 0, 64]);
    assert_eq!(b[0].0[1], vec![0xD0, 0]);
}

#[test]
fn switching_to_fluidsynth_prepares_it() {
    let old = MpeState { enabled: true, ..MpeState::default() };
    let p = MpePatch { target: Some(MpeTarget::Fluid), ..patch() };
    let (st, b) = mpe_update(&old, &p, &EchoConfig { enabled: true, channel: Some(3) }, false, false, 0);
    assert_eq!(st.target, MpeTarget::Fluid);
    let b = msgs(&b);
    assert!(b[0].1, "the set-up goes to FluidSynth");
    assert_eq!(b[0].0.last().unwrap(), &vec![0xC3, st.program]);
}

#[test]
fn nothing_is_sent_while_closed() {
    let (st, b) = mpe_update(&MpeState::default(), &MpePatch { bend: Some(9000), ..patch() }, &EchoConfig::default(), false, false, 0);
    assert_eq!(st.bend, 9000);
    assert!(b.is_empty());
}
