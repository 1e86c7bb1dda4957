use std::collections::HashMap;

use chords_server_rs::live_input::{
    apply_midi_message, apply_rec_message, echo_message, monitor_message, monitor_output_target,
    monitor_outgoing, mpe_expression_out, piano_note_message, program_change_messages,
    resolve_mpe_channel, sustain_pedal, EchoConfig, OutputTarget, RecNote, RecSession,
};
use chords_server_rs::mpe::{MpeState, MpeTarget};

fn send(active: &mut Vec<u8>, status: u8, d1: u8, d2: u8) {
    apply_midi_message(active, &[status, d1, d2]);
}

#[test]
fn note_on_ajoute_dans_l_ordre_d_arrivee() {
    let mut a = Vec::new();
    send(&mut a, 0x90, 67, 100);
    send(&mut a, 0x90, 60, 100);
    send(&mut a, 0x90, 64, 100);
    assert_eq!(a, vec![67, 60, 64]);
}

#[test]
fn doublure_pas_ajoutee_deux_fois() {
    let mut a = Vec::new();
    send(&mut a, 0x90, 60, 100);
    send(&mut a, 0x90, 60, 100);
    assert_eq!(a, vec![60]);
}

#[test]
fn note_off_et_note_on_vel_0_retirent() {
    let mut a = vec![60, 64, 67];
    send(&mut a, 0x80, 64, 64);
    assert_eq!(a, vec![60, 67]);
    send(&mut a, 0x90, 67, 0);
    assert_eq!(a, vec![60]);
}

#[test]
fn canal_drums_ignore() {
    let mut a = Vec::new();
    send(&mut a, 0x99, 36, 100);
    assert_eq!(a, Vec::<u8>::new());
    send(&mut a, 0x90, 60, 100);
    assert_eq!(a, vec![60]);
}

#[test]
fn messages_non_note_ignores() {
    let mut a = Vec::new();
    apply_midi_message(&mut a, &[0xB0, 7, 100]);
    apply_midi_message(&mut a, &[0xC0, 5]);
    apply_midi_message(&mut a, &[0x90]);
    assert_eq!(a, Vec::<u8>::new());
}

#[test]
fn release_dune_note_non_jouee_est_sans_effet() {
    let mut a = vec![60];
    send(&mut a, 0x80, 72, 64);
    assert_eq!(a, vec![60]);
}

#[test]
fn echo_remplace_le_canal_de_la_note() {
    let cfg = EchoConfig { enabled: true, channel: Some(5) };
    let out = echo_message(&[0x90, 60, 100], &cfg).unwrap();
    assert_eq!(out, vec![0x95, 60, 100]);
    let off = echo_message(&[0x80, 64, 64], &cfg).unwrap();
    assert_eq!(off, vec![0x85, 64, 64]);
}

#[test]
fn echo_relaie_la_pedale_de_sustain() {
    let cfg = EchoConfig { enabled: true, channel: Some(2) };
    let on = echo_message(&[0xB0, 64, 127], &cfg).unwrap();
    assert_eq!(on, vec![0xB2, 64, 127]);
    let off = echo_message(&[0xB0, 64, 0], &cfg).unwrap();
    assert_eq!(off, vec![0xB2, 64, 0]);
}

#[test]
fn echo_desactive_sans_piste_ou_sur_message_non_relaye() {
    let off = EchoConfig { enabled: false, channel: Some(0) };
    assert_eq!(echo_message(&[0x90, 60, 100], &off), None);
    let no_ch = EchoConfig { enabled: true, channel: None };
    assert_eq!(echo_message(&[0x90, 60, 100], &no_ch), None);
    let on = EchoConfig { enabled: true, channel: Some(0) };
    assert_eq!(echo_message(&[0xB0, 7, 100], &on), None);
    assert_eq!(echo_message(&[0xC0, 5], &on), None);
    assert_eq!(echo_message(&[0x90], &on), None);
}

#[test]
fn program_change_simple_sur_canal_non_drums() {
    let msgs = program_change_messages(2, 51, 0, 0);
    assert_eq!(msgs, vec![vec![0xC2, 51]]);
}

#[test]
fn program_change_drums_avec_banque() {
    let msgs = program_change_messages(9, 128, 1, 0);
    assert_eq!(msgs, vec![vec![0xB9, 0, 1], vec![0xB9, 32, 0], vec![0xC9, 128]]);
}

fn rec_send(notes: &mut Vec<RecNote>, held: &mut HashMap<u8, usize>, status: u8, d1: u8, d2: u8, now: u64) {
    apply_rec_message(notes, held, &[status, d1, d2], now);
}

#[test]
fn rec_note_on_cree_et_off_ferme_la_duree() {
    let mut notes = Vec::new();
    let mut held = HashMap::new();
    rec_send(&mut notes, &mut held, 0x90, 60, 100, 0);
    rec_send(&mut notes, &mut held, 0x90, 64, 100, 500);
    rec_send(&mut notes, &mut held, 0x80, 60, 64, 1000);
    assert_eq!(notes.len(), 2);
    assert_eq!(notes[0], RecNote { pitch: 60, on_ms: 0, off_ms: Some(1000) });
    assert_eq!(notes[1], RecNote { pitch: 64, on_ms: 500, off_ms: None });
    assert!(!held.contains_key(&60));
    assert!(held.contains_key(&64));
}

#[test]
fn rec_conserve_l_ordre_d_appui() {
    let mut notes = Vec::new();
    let mut held = HashMap::new();
    rec_send(&mut notes, &mut held, 0x90, 67, 100, 0);
    rec_send(&mut notes, &mut held, 0x90, 60, 100, 50);
    rec_send(&mut notes, &mut held, 0x90, 64, 100, 100);
    assert_eq!(notes.iter().map(|n| n.pitch).collect::<Vec<_>>(), vec![67, 60, 64]);
}

#[test]
fn rec_repiquage_dune_note_tenue_ignore() {
    let mut notes = Vec::new();
    let mut held = HashMap::new();
    rec_send(&mut notes, &mut held, 0x90, 60, 100, 0);
    rec_send(&mut notes, &mut held, 0x90, 60, 100, 100);
    assert_eq!(notes.len(), 1);
}

#[test]
fn piano_note_on_off() {
    assert_eq!(piano_note_message(60, 100, true, 0), vec![0x90, 60, 100]);
    assert_eq!(piano_note_message(60, 100, true, 9), vec![0x99, 60, 100]);
    assert_eq!(piano_note_message(60, 200, true, 2), vec![0x92, 60, 127]);
    assert_eq!(piano_note_message(60, 100, false, 0), vec![0x80, 60, 0]);
    assert_eq!(piano_note_message(60, 100, false, 15), vec![0x8F, 60, 0]);
}

#[test]
fn rec_note_on_vel_0_ferme_et_non_note_ignore() {
    let mut notes = Vec::new();
    let mut held = HashMap::new();
    rec_send(&mut notes, &mut held, 0x90, 60, 100, 0);
    rec_send(&mut notes, &mut held, 0x90, 60, 0, 200);
    assert_eq!(notes[0].off_ms, Some(200));
    rec_send(&mut notes, &mut held, 0xB0, 7, 100, 300);
    rec_send(&mut notes, &mut held, 0x90, 61, 0, 400);
    assert_eq!(notes.len(), 1);
}

#[test]
fn program_change_drums_sans_banque_vide() {
    assert_eq!(program_change_messages(9, 1, 0, 0), Vec::<Vec<u8>>::new());
}

fn mpe_on(channel: Option<u8>) -> MpeState {
    MpeState { enabled: true, channel, ..Default::default() }
}

#[test]
fn resolve_canal_echo_puis_mpe_puis_0() {
    let echo_on = EchoConfig { enabled: true, channel: Some(5) };
    let echo_off = EchoConfig { enabled: false, channel: None };
    assert_eq!(resolve_mpe_channel(&mpe_on(None), &echo_on), 5);
    assert_eq!(resolve_mpe_channel(&mpe_on(Some(3)), &echo_off), 3);
    assert_eq!(resolve_mpe_channel(&mpe_on(None), &echo_off), 0);
    assert_eq!(resolve_mpe_channel(&MpeState::default(), &echo_off), 0);
}

#[test]
fn monitor_sans_echo_relaie_notes_et_sustain_sur_canal_mpe() {
    let echo_off = EchoConfig::default();
    let m = mpe_on(None);
    let on = monitor_message(&[0x90, 60, 100], &m, &echo_off).unwrap();
    assert_eq!(on, vec![0x90, 60, 100]);
    let off = monitor_message(&[0x80, 64, 64], &m, &echo_off).unwrap();
    assert_eq!(off, vec![0x80, 64, 64]);
    let sus = monitor_message(&[0xB0, 64, 127], &m, &echo_off).unwrap();
    assert_eq!(sus, vec![0xB0, 64, 127]);
    let m2 = mpe_on(Some(2));
    let on2 = monitor_message(&[0x90, 60, 100], &m2, &echo_off).unwrap();
    assert_eq!(on2, vec![0x92, 60, 100]);
}

#[test]
fn monitor_mpe_desactive_relaie_quand_meme_thru_par_defaut() {
    let echo_off = EchoConfig::default();
    let off = MpeState::default();
    let on = monitor_message(&[0x90, 60, 100], &off, &echo_off).unwrap();
    assert_eq!(on, vec![0x90, 60, 100]);
    assert_eq!(monitor_message(&[0xB0, 7, 100], &off, &echo_off), None);
    assert_eq!(monitor_message(&[0xC0, 5], &off, &echo_off), None);
    assert_eq!(monitor_message(&[0x90], &off, &echo_off), None);
}

#[test]
fn monitor_echo_prioritaire_sur_mpe() {
    let echo_on = EchoConfig { enabled: true, channel: Some(5) };
    let m = mpe_on(None);
    let out = monitor_message(&[0x90, 60, 100], &m, &echo_on).unwrap();
    assert_eq!(out, vec![0x95, 60, 100]);
}

#[test]
fn expression_out_envoie_bend_at_timbre_sur_le_bon_canal() {
    let echo_off = EchoConfig::default();
    let mut m = mpe_on(None);
    m.bend = 9000;
    m.pressure = 80;
    m.timbre = 30;
    let out = mpe_expression_out(&m, &echo_off, 0);
    assert_eq!(out.len(), 3);
    assert_eq!(out[0], vec![0xE0, (9000 & 0x7F) as u8, ((9000 >> 7) & 0x7F) as u8]);
    assert_eq!(out[1], vec![0xD0, 80]);
    assert_eq!(out[2], vec![0xB0, 74, 30]);
}

#[test]
fn expression_out_sur_canal_de_echo() {
    let echo_on = EchoConfig { enabled: true, channel: Some(7) };
    let m = mpe_on(None);
    let out = mpe_expression_out(&m, &echo_on, 0);
    assert_eq!(out[0][0], 0xE7);
    assert_eq!(out[1][0], 0xD7);
    assert_eq!(out[2][0], 0xB7);
}

#[test]
fn expression_out_desactive_si_mpe_off() {
    let echo_off = EchoConfig::default();
    let off = MpeState::default();
    assert_eq!(mpe_expression_out(&off, &echo_off, 0), Vec::<Vec<u8>>::new());
}

fn mpe_auto(channel: Option<u8>) -> MpeState {
    MpeState { enabled: true, channel, ..Default::default() }
}

fn mpe_fluid(channel: Option<u8>) -> MpeState {
    MpeState { enabled: true, target: MpeTarget::Fluid, channel, ..Default::default() }
}

#[test]
fn routage_echo_prioritaire_sans_modal() {
    let echo_on = EchoConfig { enabled: true, channel: Some(2) };
    assert_eq!(monitor_output_target(&MpeState::default(), &echo_on), OutputTarget::Main);
    assert_eq!(monitor_output_target(&mpe_auto(None), &echo_on), OutputTarget::Main);
}

#[test]
fn routage_monitoring_mpe_sans_echo() {
    let echo_off = EchoConfig::default();
    assert_eq!(monitor_output_target(&mpe_auto(None), &echo_off), OutputTarget::Main);
    assert_eq!(monitor_output_target(&MpeState::default(), &echo_off), OutputTarget::Main);
}

#[test]
fn routage_fluid_force_le_pc() {
    let echo_on = EchoConfig { enabled: true, channel: Some(2) };
    let echo_off = EchoConfig::default();
    assert_eq!(monitor_output_target(&mpe_fluid(None), &echo_on), OutputTarget::Fluid);
    assert_eq!(monitor_output_target(&mpe_fluid(None), &echo_off), OutputTarget::Fluid);
    let mut off = MpeState::default();
    off.target = MpeTarget::Fluid;
    assert_eq!(monitor_output_target(&off, &echo_on), OutputTarget::Main);
    assert_eq!(monitor_output_target(&off, &echo_off), OutputTarget::Main);
}

#[test]
fn thru_par_defaut_sur_le_canal_de_jeu() {
    let echo_off = EchoConfig::default();
    let off = MpeState::default();
    assert_eq!(monitor_message(&[0x90, 60, 100], &off, &echo_off), Some(vec![0x90, 60, 100]));
    assert_eq!(monitor_message(&[0x80, 64, 64], &off, &echo_off), Some(vec![0x80, 64, 64]));
    assert_eq!(monitor_message(&[0x93, 60, 100], &off, &echo_off), Some(vec![0x90, 60, 100]));
    let m = mpe_on(Some(4));
    assert_eq!(monitor_message(&[0x90, 60, 100], &m, &echo_off), Some(vec![0x94, 60, 100]));
}

#[test]
fn routage_roland_explicite() {
    let echo_on = EchoConfig { enabled: true, channel: Some(2) };
    let mut m = mpe_auto(None);
    m.target = MpeTarget::Roland;
    assert_eq!(monitor_output_target(&m, &echo_on), OutputTarget::Main);
    assert_eq!(monitor_output_target(&m, &EchoConfig::default()), OutputTarget::Main);
}

#[test]
fn held_notes_never_hold_a_pitch_twice() {
    let mut a = Vec::new();
    for msg in [[0x90u8, 60, 100], [0x91, 60, 90], [0x90, 64, 1], [0x80, 60, 0], [0x90, 60, 5], [0x92, 64, 80]] {
        apply_midi_message(&mut a, &msg);
        let mut sorted = a.clone();
        sorted.sort();
        sorted.dedup();
        assert_eq!(sorted.len(), a.len());
    }
    assert_eq!(a, vec![64, 60]);
}

#[test]
fn note_on_without_velocity_byte_presses() {
    let mut a = Vec::new();
    apply_midi_message(&mut a, &[0x90, 62]);
    assert_eq!(a, vec![62]);
}

#[test]
fn sustain_pedal_state_from_cc64() {
    assert_eq!(sustain_pedal(&[0xB3, 64, 64]), Some(true));
    assert_eq!(sustain_pedal(&[0xB0, 64, 63]), Some(false));
    assert_eq!(sustain_pedal(&[0xB0, 7, 127]), None);
    assert_eq!(sustain_pedal(&[0xB0, 64]), None);
}

#[test]
fn monitor_outgoing_sends_note_then_expression() {
    let echo_off = EchoConfig::default();
    let m = mpe_on(Some(1));
    let out = monitor_outgoing(&[0x90, 60, 100], &m, &echo_off, 100);
    assert_eq!(out.len(), 4);
    assert_eq!(out[0], vec![0x91, 60, 100]);
    assert_eq!(out[1], vec![0xE1, ((8192 + 100) & 0x7F) as u8, (((8192 + 100) >> 7) & 0x7F) as u8]);
    let off = MpeState::default();
    assert_eq!(monitor_outgoing(&[0xC0, 5], &off, &echo_off, 0), Vec::<Vec<u8>>::new());
}

#[test]
fn rec_session_starts_empty() {
    let mut s = RecSession::new();
    assert!(s.notes.is_empty());
    assert!(s.held.is_empty());
    let t = s.now_ms();
    apply_rec_message(&mut s.notes, &mut s.held, &[0x90, 60, 100], t);
    assert_eq!(s.notes.len(), 1);
    assert_eq!(s.notes[0].on_ms, t);
}

#[test]
fn press_then_release_restores_held_notes() {
    let mut a = vec![64, 67];
    send(&mut a, 0x93, 60, 90);
    assert_eq!(a, vec![64, 67, 60]);
    send(&mut a, 0x83, 60, 0);
    assert_eq!(a, vec![64, 67]);
}

#[test]
fn rec_press_then_release_adds_one_closed_note() {
    let mut notes = vec![RecNote { pitch: 62, on_ms: 0, off_ms: Some(100) }];
    let mut held: HashMap<u8, usize> = HashMap::new();
    rec_send(&mut notes, &mut held, 0x90, 60, 80, 250);
    rec_send(&mut notes, &mut held, 0x80, 60, 0, 400);
    assert_eq!(notes[1], RecNote { pitch: 60, on_ms: 250, off_ms: Some(400) });
    assert_eq!(notes.len(), 2);
    assert!(held.is_empty());
}
