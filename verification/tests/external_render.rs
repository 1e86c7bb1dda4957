use chords_server_rs::external_render::{find_capture_device, parse_cards, CaptureCard};

#[test]
fn parse_cards_extrait_id_et_description() {
    let text = " 0 [Generic_1     ]: HDA-Intel - HD-Audio Generic\n 3 [Piano         ]: USB-Audio - Roland Digital Piano\n 5 [USB           ]: USB-Audio - Carte bidon\n";
    let cards = parse_cards(text);
    assert_eq!(cards.len(), 3);
    assert_eq!(cards[0].id, "0");
    assert_eq!(cards[0].desc, "HDA-Intel - HD-Audio Generic");
    assert_eq!(cards[1].id, "3");
    assert_eq!(cards[1].desc, "USB-Audio - Roland Digital Piano");
    assert_eq!(parse_cards("pas une carte\n\n 1 [X]: desc\n").len(), 1);
}

#[test]
fn find_capture_device_matche_par_nom() {
    let cards = vec![
        CaptureCard { id: "0".into(), desc: "HDA-Intel - HD-Audio Generic".into() },
        CaptureCard { id: "3".into(), desc: "USB-Audio - Roland Digital Piano".into() },
    ];
    let dev = find_capture_device("Roland Digital Piano:Roland Digital Piano MIDI 1 28:0", &cards);
    assert_eq!(dev.as_deref(), Some("hw:3,0"));
    assert_eq!(find_capture_device("FLUID Synth (817148):Synth input port (817148:0) 128:0", &cards), None);
    assert_eq!(find_capture_device("", &cards), None);
    assert_eq!(find_capture_device("Midi Through:Midi Through Port-0 14:0", &cards), None);
    assert_eq!(find_capture_device("Generic X", &cards), None);
    assert_eq!(find_capture_device("USB Audio Device", &cards), None);
}

#[test]
fn parse_cards_handles_crlf_and_second_line_of_alsa() {
    let text = " 2 [Gen]: USB-Audio - Yamaha P-125\r\n                      Yamaha P-125 at usb-0000:00:14.0-1\r\n";
    let cards = parse_cards(text);
    assert_eq!(cards.len(), 1);
    assert_eq!(cards[0].id, "2");
    assert_eq!(cards[0].desc, "USB-Audio - Yamaha P-125");
    assert!(parse_cards(" x [A]: desc").is_empty());
    assert!(parse_cards(" 1 [A]:   ").is_empty());
    assert!(parse_cards("").is_empty());
}

#[test]
fn first_matching_card_wins() {
    let cards = vec![
        CaptureCard { id: "1".into(), desc: "Roland Piano A".into() },
        CaptureCard { id: "2".into(), desc: "Roland Piano B".into() },
    ];
    assert_eq!(find_capture_device("ROLAND piano", &cards).as_deref(), Some("hw:1,0"));
    assert_eq!(find_capture_device("Roland Synth", &cards), None);
}
