use chords_server_rs::wav::trim_silence;
use hound::{SampleFormat, WavSpec, WavWriter};
use std::io::Cursor;

fn spec16() -> WavSpec {
    WavSpec { channels: 2, sample_rate: 44100, bits_per_sample: 16, sample_format: SampleFormat::Int }
}

fn wav_ton(silence_s: f64, ton_s: f64, fin_s: f64, amp: f64) -> Vec<u8> {
    let mut buf = Vec::new();
    let mut w = WavWriter::new(Cursor::new(&mut buf), spec16()).unwrap();
    let sr = 44100usize;
    let v = (amp * 32767.0) as i16;
    let mut write = |sec: f64, val: i16| {
        for _ in 0..(sec * sr as f64) as usize {
            w.write_sample(val).unwrap();
            w.write_sample(val).unwrap();
        }
    };
    write(silence_s, 0);
    write(ton_s, v);
    write(fin_s, 0);
    w.finalize().unwrap();
    buf
}

fn threshold(t: f64) -> i32 {
    (t * 32768.0).max(1.0) as i32
}

fn keep_ms(sec: f64) -> u32 {
    (sec * 1000.0).round() as u32
}

#[test]
fn trim_silence_coupe_le_debut_et_la_fin() {
    let wav = wav_ton(0.5, 1.0, 0.5, 0.25);
    let trimmed = trim_silence(&wav, threshold(0.005), keep_ms(0.05));
    let mut r = hound::WavReader::new(Cursor::new(&trimmed)).unwrap();
    let samples: Vec<i16> = r.samples::<i16>().filter_map(|s| s.ok()).collect();
    let ch = 2usize;
    let frames = samples.len() / ch;
    let sr = 44100usize;
    assert!((frames as f64 / sr as f64 - 1.1).abs() < 0.03, "durée={} s", frames as f64 / sr as f64);
    assert_eq!(samples[0], 0);
    let first_nz = samples.iter().position(|&s| s != 0).unwrap() / ch;
    assert!((first_nz as f64 / sr as f64 - 0.05).abs() < 0.02, "premier={} s", first_nz as f64 / sr as f64);
}

#[test]
fn trim_silence_laisse_inchange_un_wav_plein() {
    let wav = wav_ton(0.0, 1.0, 0.0, 0.25);
    let trimmed = trim_silence(&wav, threshold(0.005), keep_ms(0.05));
    assert_eq!(trimmed.len(), wav.len());
}

#[test]
fn trim_silence_inchange_si_tout_silence_ou_invalide() {
    let silence = wav_ton(1.0, 0.0, 0.0, 0.0);
    assert_eq!(trim_silence(&silence, threshold(0.005), keep_ms(0.05)).len(), silence.len());
    assert_eq!(trim_silence(b"pas un wav", threshold(0.005), keep_ms(0.05)).to_vec(), b"pas un wav");
    assert_eq!(trim_silence(&[], threshold(0.005), keep_ms(0.05)).len(), 0);
}

#[test]
fn trim_silence_keeps_short_files() {
    let wav = wav_ton(0.0, 0.001, 0.0, 0.5);
    assert_eq!(trim_silence(&wav, 1, 0), wav);
}
