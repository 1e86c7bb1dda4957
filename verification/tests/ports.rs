use chords_server_rs::ports::{choose_input_port, choose_output_port, port_from_setting, port_name_has, FALLBACK_PORT};

fn names(v: &[&str]) -> Vec<String> {
    v.iter().map(|s| s.to_string()).collect()
}

#[test]
fn output_port_prefers_roland_then_fluidsynth() {
    let n = names(&["Midi Through:Midi Through Port-0 14:0", "FLUID Synth (1452):Synth input port 128:0", "Roland Digital Piano:MIDI 1 24:0"]);
    assert_eq!(choose_output_port(&n), 2);
    let n = names(&["Midi Through:Midi Through Port-0 14:0", "FLUID Synth (1452):Synth input port 128:0"]);
    assert_eq!(choose_output_port(&n), 1);
}

#[test]
fn output_port_falls_back_on_a_usable_port_then_the_default_index() {
    let n = names(&["Midi Through:Midi Through Port-0 14:0", "System:Timer", "USB MIDI Interface"]);
    assert_eq!(choose_output_port(&n), 2);
    let n = names(&["Midi Through:Midi Through Port-0 14:0", "System:Announce"]);
    assert_eq!(choose_output_port(&n), FALLBACK_PORT);
    assert_eq!(choose_output_port(&[]), FALLBACK_PORT);
}

#[test]
fn input_port_prefers_the_roland_keyboard() {
    let n = names(&["Midi Through:Midi Through Port-0 14:0", "Arturia KeyStep", "ROLAND FP-30"]);
    assert_eq!(choose_input_port(&n), Some(2));
    let n = names(&["Midi Through:Midi Through Port-0 14:0", "Arturia KeyStep"]);
    assert_eq!(choose_input_port(&n), Some(1));
    let n = names(&["Midi Through:Midi Through Port-0 14:0"]);
    assert_eq!(choose_input_port(&n), None);
}

#[test]
fn port_setting_reads_an_index() {
    assert_eq!(port_from_setting("3"), 3);
    assert_eq!(port_from_setting("+0"), 0);
    assert_eq!(port_from_setting("x"), FALLBACK_PORT);
    assert_eq!(port_from_setting(""), FALLBACK_PORT);
}

#[test]
fn port_names_match_whatever_the_case() {
    assert!(port_name_has("FLUID Synth (1452)", "fluid"));
    assert!(!port_name_has("Roland Digital Piano", "fluid"));
}
