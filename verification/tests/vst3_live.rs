use chords_server_rs::vst3_live::{extract_xml_state, midi_to_vst3_event, resolve_preset, LiveMidiEvent, PresetInfo};

#[test]
fn extraction_xml_depuis_fxp_surge() {
    let mut data = vec![0u8; 64];
    data[0..4].copy_from_slice(b"fxpH");
    data.extend_from_slice(b"<?xml version=\"1.0\"?><surge>state</surge>");
    let xml = extract_xml_state(&data).unwrap();
    assert_eq!(xml, b"<?xml version=\"1.0\"?><surge>state</surge>");
    assert_eq!(extract_xml_state(b"pas de xml ici"), None);
}

#[test]
fn conversion_midi_vers_vst3() {
    assert_eq!(
        midi_to_vst3_event(&[0x90, 60, 100]),
        Some(LiveMidiEvent::NoteOn { channel: 0, note: 60, velocity: 100 })
    );
    assert_eq!(
        midi_to_vst3_event(&[0x90, 60, 0]),
        Some(LiveMidiEvent::NoteOff { channel: 0, note: 60, velocity: 0 })
    );
    assert_eq!(
        midi_to_vst3_event(&[0x80, 64, 64]),
        Some(LiveMidiEvent::NoteOff { channel: 0, note: 64, velocity: 64 })
    );
    assert_eq!(
        midi_to_vst3_event(&[0xB5, 64, 127]),
        Some(LiveMidiEvent::ControlChange { channel: 5, controller: 64, value: 127 })
    );
    assert_eq!(
        midi_to_vst3_event(&[0xC2, 51]),
        Some(LiveMidiEvent::ProgramChange { channel: 2, program: 51 })
    );
    assert_eq!(
        midi_to_vst3_event(&[0xE0, 0x00, 0x40]),
        Some(LiveMidiEvent::PitchBend { channel: 0, value: 8192 })
    );
    assert_eq!(midi_to_vst3_event(&[0xF0]), None);
    assert_eq!(midi_to_vst3_event(&[0x90]), None);
    assert_eq!(midi_to_vst3_event(&[]), None);
}

#[test]
fn xml_marker_found_at_the_start_and_first_occurrence() {
    assert_eq!(extract_xml_state(b"<?xml a<?xml b").unwrap(), b"<?xml a<?xml b");
    assert_eq!(extract_xml_state(b"xx<?xml").unwrap(), b"<?xml");
    assert_eq!(extract_xml_state(b"<?xm"), None);
}

fn preset(name: &str, path: &str) -> PresetInfo {
    PresetInfo { name: name.into(), path: path.into(), category: "Keys".into() }
}

#[test]
fn resolve_preset_by_path_or_partial_name() {
    let list = vec![preset("Bright Piano", "/p/Keys/Bright Piano.fxp"), preset("Soft Suitcase", "/p/Keys/Soft Suitcase.fxp")];
    assert_eq!(
        resolve_preset("soft suit", false, &list, "/p"),
        Ok(("/p/Keys/Soft Suitcase.fxp".to_string(), "Soft Suitcase".to_string()))
    );
    assert_eq!(
        resolve_preset("/x/My Lead.fxp", true, &list, "/p"),
        Ok(("/x/My Lead.fxp".to_string(), "My Lead".to_string()))
    );
    assert_eq!(
        resolve_preset("zzz", false, &list, "/p"),
        Err("Preset « zzz » introuvable dans /p".to_string())
    );
}

#[test]
fn pitch_bend_uses_both_data_bytes() {
    assert_eq!(midi_to_vst3_event(&[0xE3, 0x7F, 0x7F]), Some(LiveMidiEvent::PitchBend { channel: 3, value: 16383 }));
    assert_eq!(midi_to_vst3_event(&[0xE3, 0x05]), Some(LiveMidiEvent::PitchBend { channel: 3, value: 5 }));
    assert_eq!(midi_to_vst3_event(&[0x91, 60]), Some(LiveMidiEvent::NoteOff { channel: 1, note: 60, velocity: 0 }));
}
