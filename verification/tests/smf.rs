use chords_server_rs::smf::{
    append_bytes, sort_events, tempo_meta_bytes, tempo_to_us, write_header, write_track_chunk, write_track_events, write_u16,
    write_u32, SmfEvent,
};

#[test]
fn sort_events_is_stable_by_tick() {
    let ev = |tick: u32, b: u8| SmfEvent { tick, bytes: vec![b] };
    let sorted = sort_events(vec![ev(5, 1), ev(0, 2), ev(5, 3), ev(0, 4)]);
    let got: Vec<(u32, u8)> = sorted.iter().map(|e| (e.tick, e.bytes[0])).collect();
    assert_eq!(got, vec![(0, 2), (0, 4), (5, 1), (5, 3)]);
}

#[test]
fn track_events_use_delta_times() {
    let evs = vec![SmfEvent { tick: 0, bytes: vec![0x90, 60, 100] }, SmfEvent { tick: 200, bytes: vec![0x80, 60, 64] }];
    let mut buf = vec![0xAA];
    write_track_events(&mut buf, &evs);
    assert_eq!(buf, vec![0xAA, 0x00, 0x90, 60, 100, 0x81, 0x48, 0x80, 60, 64]);
}

#[test]
fn chunks_and_big_endian_fields() {
    let mut buf = Vec::new();
    write_header(&mut buf, 480);
    assert_eq!(buf, vec![0x4D, 0x54, 0x68, 0x64, 0, 0, 0, 6, 0, 0, 0, 1, 0x01, 0xE0]);
    let mut t = Vec::new();
    write_track_chunk(&mut t, &vec![1, 2, 3]);
    assert_eq!(t, vec![0x4D, 0x54, 0x72, 0x6B, 0, 0, 0, 3, 1, 2, 3]);
    let mut b = Vec::new();
    write_u16(&mut b, 0x1234);
    write_u32(&mut b, 0xDEADBEEF);
    append_bytes(&mut b, &[7, 8]);
    assert_eq!(b, vec![0x12, 0x34, 0xDE, 0xAD, 0xBE, 0xEF, 7, 8]);
}

#[test]
fn tempo_in_microseconds() {
    assert_eq!(tempo_to_us(120), 500_000);
    assert_eq!(tempo_to_us(0), 60_000_000);
    assert_eq!(tempo_to_us(7), 8_571_428);
    assert_eq!(tempo_meta_bytes(500_000), vec![0xFF, 0x51, 0x03, 0x07, 0xA1, 0x20]);
}
