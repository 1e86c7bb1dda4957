use chords_server_rs::mpe::{
    channel_pressure_message, effective_bend, expression_messages, expression_tick, pitch_bend_message, rpn_pitch_range_messages,
    timbre_message, MpeState, BEND_CENTER, TIMBRE_CENTER,
};

#[test]
fn pitch_bend_14_bit_encodage() {
    assert_eq!(pitch_bend_message(1, 8192), vec![0xE1, 0x00, 64]);
    assert_eq!(pitch_bend_message(0, 0), vec![0xE0, 0x00, 0]);
    assert_eq!(pitch_bend_message(3, 16383), vec![0xE3, 127, 127]);
    assert_eq!(pitch_bend_message(1, 20000), vec![0xE1, 127, 127]);
}

#[test]
fn channel_pressure_et_cc74() {
    assert_eq!(channel_pressure_message(5, 100), vec![0xD5, 100]);
    assert_eq!(channel_pressure_message(5, 200), vec![0xD5, 127]);
    assert_eq!(timbre_message(2, 64), vec![0xB2, 74, 64]);
    assert_eq!(timbre_message(2, 200), vec![0xB2, 74, 127]);
}

#[test]
fn rpn_pitch_range_sequence_complete() {
    let msgs = rpn_pitch_range_messages(2, 48);
    assert_eq!(
        msgs,
        vec![
            vec![0xB2, 101, 0],
            vec![0xB2, 100, 0],
            vec![0xB2, 6, 48],
            vec![0xB2, 38, 0],
            vec![0xB2, 101, 127],
            vec![0xB2, 100, 127],
        ]
    );
}

#[test]
fn expression_messages_avec_et_sans_range() {
    let with = expression_messages(1, 9000, 50, 80, Some(48));
    assert_eq!(with.len(), 3 + 6);
    assert_eq!(with[6], vec![0xE1, (9000 & 0x7F) as u8, ((9000 >> 7) & 0x7F) as u8]);
    assert_eq!(with[7], vec![0xD1, 50]);
    assert_eq!(with[8], vec![0xB1, 74, 80]);
    let without = expression_messages(1, 8192, 0, 64, None);
    assert_eq!(without.len(), 3);
}

#[test]
fn mpe_state_reset_et_neutre() {
    let mut st = MpeState::default();
    assert!(st.is_neutral());
    st.bend = 9000;
    st.pressure = 100;
    st.timbre = 20;
    assert!(!st.is_neutral());
    st.reset();
    assert!(st.is_neutral());
    assert_eq!(st.bend, BEND_CENTER);
    assert_eq!(st.pressure, 0);
    assert_eq!(st.timbre, TIMBRE_CENTER);
}

#[test]
fn effective_bend_clamps_the_sum() {
    let mut st = MpeState::default();
    st.bend = 0;
    assert_eq!(effective_bend(&st, 8192), 8192);
    st.bend = 10000;
    assert_eq!(effective_bend(&st, -4096), 5904);
    st.bend = 16383;
    assert_eq!(effective_bend(&st, 4096), 16383);
    st.bend = 100;
    assert_eq!(effective_bend(&st, -4096), 0);
}

#[test]
fn reset_keeps_monitoring_settings() {
    let mut st = MpeState { enabled: true, channel: Some(3), pitch_range_st: 12, ..Default::default() };
    st.bend = 1;
    st.reset();
    assert!(st.enabled);
    assert_eq!(st.channel, Some(3));
    assert_eq!(st.pitch_range_st, 12);
}

/// The square LFO at its crest adds `8192 * depth / range` to the bend:
/// depth 48 over range 48 gives +8192, depth 24 gives 4096 either way.
#[test]
fn effective_bend_borne_entre_0_et_16383() {
    let mut st = MpeState::default();
    st.bend = 0;
    assert_eq!(effective_bend(&st, 8192), 8192);
    st.bend = 10000;
    assert_eq!(effective_bend(&st, -4096), 5904);
    st.bend = 16383;
    assert_eq!(effective_bend(&st, 4096), 16383);
}

#[test]
fn expression_tick_resends_only_changes() {
    let (last, msgs) = expression_tick(None, Some((1, 8192, 0, 64)));
    assert_eq!(last, Some((1, 8192, 0, 64)));
    assert_eq!(msgs, vec![vec![0xE1, 0, 64], vec![0xD1, 0], vec![0xB1, 74, 64]]);
    let (same, none) = expression_tick(last, Some((1, 8192, 0, 64)));
    assert_eq!(same, last);
    assert!(none.is_empty());
    let (closed, quiet) = expression_tick(last, None);
    assert_eq!(closed, None);
    assert!(quiet.is_empty());
}
