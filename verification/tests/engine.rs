use chords_server_rs::engine::{smf_from_notes, Engine, TickSpan};

#[test]
fn engine_labels() {
    assert_eq!(Engine::FluidSynth.label(), "fluidsynth");
    assert_eq!(Engine::Sfz("x.sfz".into()).label(), "sfz");
    assert_eq!(Engine::Vst3("x.vst3".into()).label(), "vst3");
    assert_eq!(Engine::Sf2("x.sf2".into()).label(), "sf2");
}

#[test]
fn smf_from_notes_orders_events_and_writes_tempo() {
    let notes = vec![
        TickSpan { start: 480, end: 960, pitch: 64, velocity: 0 },
        TickSpan { start: 0, end: 480, pitch: 60, velocity: 200 },
        TickSpan { start: 100, end: 100, pitch: 70, velocity: 90 },
    ];
    let smf = smf_from_notes(&notes, 120);
    let smf_midly = midly::Smf::parse(&smf).unwrap();
    assert_eq!(smf_midly.header.format, midly::Format::SingleTrack);
    assert_eq!(smf_midly.header.timing, midly::Timing::Metrical(480.into()));
    let track = &smf_midly.tracks[0];
    let mut tick = 0u32;
    let mut seen = Vec::new();
    for ev in track {
        tick += ev.delta.as_int();
        match ev.kind {
            midly::TrackEventKind::Meta(midly::MetaMessage::Tempo(t)) => assert_eq!(t.as_int(), 500_000),
            midly::TrackEventKind::Midi { message: midly::MidiMessage::NoteOn { key, vel }, .. } => {
                seen.push((tick, key.as_int(), vel.as_int(), true))
            }
            midly::TrackEventKind::Midi { message: midly::MidiMessage::NoteOff { key, vel }, .. } => {
                seen.push((tick, key.as_int(), vel.as_int(), false))
            }
            _ => {}
        }
    }
    assert_eq!(seen, vec![(0, 60, 127, true), (480, 64, 1, true), (480, 60, 0, false), (960, 64, 0, false)]);
}

#[test]
fn smf_from_notes_zero_tempo_counts_as_one_bpm() {
    let smf = smf_from_notes(&[], 0);
    let parsed = midly::Smf::parse(&smf).unwrap();
    let tempo = parsed.tracks[0].iter().find_map(|e| match e.kind {
        midly::TrackEventKind::Meta(midly::MetaMessage::Tempo(t)) => Some(t.as_int()),
        _ => None,
    });
    assert_eq!(tempo, Some(60_000_000 & 0xFF_FFFF));
}
