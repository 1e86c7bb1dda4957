//! Live MIDI state and note names: the five live tracks, the settings the
//! frontend changes while playing, and note-name parsing ("C4" = 60).
use vstd::prelude::*;
use crate::text::{chars_of, copy_range, to_uppercase, trim_chars, spec_trim, str_uppercase, str_eq, owned, all_ascii, ascii_upper,
    char_is_whitespace, trim_start_index, trim_end_count};
use crate::num::{parse_signed, parse_signed_chars};

verus! {

pub const TRACK_LEAD: usize = 0;
pub const TRACK_BASS: usize = 1;
pub const TRACK_STR: usize = 2;
pub const TRACK_DRUMS: usize = 3;
pub const TRACK_ACCENT: usize = 4;

/// Settings of one live track.
#[derive(Clone, Copy, Debug, PartialEq, Eq, Structural)]
pub struct LiveTrack {
    /// MIDI channel (0-15, 9 = drums).
    pub channel: u8,
    pub program: u16,
    pub volume: u8,
    pub mute: bool,
}

impl LiveTrack {
    /// A live track on channel `ch` with program `pg` and volume `vol`, not muted.
    pub fn new(ch: u8, pg: u16, vol: u8) -> (r: Self)
        ensures
            r == (LiveTrack { channel: ch, program: pg, volume: vol, mute: false }),
    {
        LiveTrack { channel: ch, program: pg, volume: vol, mute: false }
    }
}

/// State of live playback shared by the HTTP side and the player.
pub struct Live {
    /// The five tracks: lead, bass, pads, drums, accent.
    pub tracks: Vec<LiveTrack>,
    pub pattern: u8,
    pub tempo: u16,
    pub stop: bool,
    /// Time signature coded as numerator * 10 + denominator (44 = 4/4).
    pub sig: u16,
    pub walking: bool,
    pub master_vol: u8,
    pub use432: bool,
    pub loop_offset: i32,
    pub use_loops: bool,
    pub loop_name: String,
    pub loop_volume: u8,
}

/// A track change sent by the frontend (absent fields are left unchanged).
#[derive(Clone, Copy, Debug, PartialEq, Eq, Structural)]
pub struct TrackCfg {
    pub channel: u8,
    pub program: Option<u16>,
    pub volume: Option<u8>,
    pub mute: Option<bool>,
}

/// Index of the first track on `ch`, or -1.
pub open spec fn track_index(tracks: Seq<LiveTrack>, ch: u8) -> int
    decreases tracks.len(),
{
    if tracks.len() == 0 {
        -1
    } else if track_index(tracks.drop_last(), ch) >= 0 {
        track_index(tracks.drop_last(), ch)
    } else if tracks.last().channel == ch {
        tracks.len() - 1
    } else {
        -1
    }
}

/// A track with the given fields changed.
pub open spec fn updated(t: LiveTrack, tc: TrackCfg) -> LiveTrack {
    LiveTrack {
        channel: t.channel,
        program: match tc.program { Some(p) => p, None => t.program },
        volume: match tc.volume { Some(v) => v, None => t.volume },
        mute: match tc.mute { Some(m) => m, None => t.mute },
    }
}

/// One change applied to the first track on its channel (none if no track is on it).
pub open spec fn apply_one(tracks: Seq<LiveTrack>, tc: TrackCfg) -> Seq<LiveTrack> {
    let i = track_index(tracks, tc.channel);
    if i < 0 {
        tracks
    } else {
        tracks.update(i, updated(tracks[i], tc))
    }
}

/// All changes applied in order.
pub open spec fn apply_all(tracks: Seq<LiveTrack>, cfg: Seq<TrackCfg>) -> Seq<LiveTrack>
    decreases cfg.len(),
{
    if cfg.len() == 0 {
        tracks
    } else {
        apply_one(apply_all(tracks, cfg.drop_last()), cfg.last())
    }
}

proof fn lemma_track_index(tracks: Seq<LiveTrack>, ch: u8, i: int)
    requires
        0 <= i <= tracks.len(),
        forall|k: int| 0 <= k < i ==> tracks[k].channel != ch,
        i == tracks.len() || tracks[i].channel == ch,
    ensures
        track_index(tracks, ch) == (if i == tracks.len() { -1 } else { i }),
    decreases tracks.len(),
{
    if tracks.len() > 0 {
        if i < tracks.len() - 1 {
            lemma_track_index(tracks.drop_last(), ch, i);
        } else {
            lemma_track_index(tracks.drop_last(), ch, tracks.len() - 1);
        }
    }
}

/// Applies track changes from the frontend: program, volume and mute of the
/// first track on each given channel.
pub fn apply_tracks(lc: &mut Live, cfg: &[TrackCfg])
    ensures
        final(lc).tracks@ == apply_all(old(lc).tracks@, cfg@),
        final(lc).pattern == old(lc).pattern,
        final(lc).tempo == old(lc).tempo,
        final(lc).sig == old(lc).sig,
        final(lc).master_vol == old(lc).master_vol,
        final(lc).walking == old(lc).walking,
        final(lc).stop == old(lc).stop,
        final(lc).use432 == old(lc).use432,
{
    let mut j: usize = 0;
    let ghost start = lc.tracks@;
    while j < cfg.len()
        invariant
            j <= cfg@.len(),
            lc.tracks@ == apply_all(start, cfg@.subrange(0, j as int)),
            lc.pattern == old(lc).pattern,
            lc.tempo == old(lc).tempo,
            lc.sig == old(lc).sig,
            lc.master_vol == old(lc).master_vol,
            lc.walking == old(lc).walking,
            lc.stop == old(lc).stop,
            lc.use432 == old(lc).use432,
        decreases cfg@.len() - j,
    {
        let tc = cfg[j];
        proof {
            let s = cfg@.subrange(0, j + 1);
            assert(s.drop_last() == cfg@.subrange(0, j as int));
            assert(s.last() == tc);
        }
        let mut i: usize = 0;
        while i < lc.tracks.len() && lc.tracks[i].channel != tc.channel
            invariant
                i <= lc.tracks@.len(),
                forall|k: int| 0 <= k < i ==> lc.tracks@[k].channel != tc.channel,
            decreases lc.tracks@.len() - i,
        {
            i = i + 1;
        }
        proof {
            lemma_track_index(lc.tracks@, tc.channel, i as int);
        }
        if i < lc.tracks.len() {
            let t = lc.tracks[i];
            let nt = LiveTrack {
                channel: t.channel,
                program: match tc.program { Some(p) => p, None => t.program },
                volume: match tc.volume { Some(v) => v, None => t.volume },
                mute: match tc.mute { Some(m) => m, None => t.mute },
            };
            lc.tracks.set(i, nt);
        }
        j = j + 1;
    }
    assert(cfg@.subrange(0, cfg@.len() as int) == cfg@);
}

/// Characters of the note name: one, or two when the second is `#` or `b`.
pub open spec fn name_len(t: Seq<char>) -> int {
    if t.len() > 1 && (t[1] == '#' || t[1] == 'b') {
        2
    } else {
        1
    }
}

/// Flats written as the sharp of the note below.
pub open spec fn normalize_flat(u: Seq<char>) -> Seq<char> {
    if u == "DB"@ {
        "C#"@
    } else if u == "EB"@ {
        "D#"@
    } else if u == "GB"@ {
        "F#"@
    } else if u == "AB"@ {
        "G#"@
    } else if u == "BB"@ {
        "A#"@
    } else {
        u
    }
}

/// Semitone of a note name above C, or -1 for an unknown name.
pub open spec fn chromatic_index(n: Seq<char>) -> int {
    if n == "C"@ {
        0
    } else if n == "C#"@ {
        1
    } else if n == "D"@ {
        2
    } else if n == "D#"@ {
        3
    } else if n == "E"@ {
        4
    } else if n == "F"@ {
        5
    } else if n == "F#"@ {
        6
    } else if n == "G"@ {
        7
    } else if n == "G#"@ {
        8
    } else if n == "A"@ {
        9
    } else if n == "A#"@ {
        10
    } else if n == "B"@ {
        11
    } else {
        -1
    }
}

/// The octave of a note name, read as a 32-bit signed integer.
pub open spec fn note_octave(t: Seq<char>) -> Option<int> {
    parse_signed(t.subrange(name_len(t), t.len() as int), i32::MIN as int, i32::MAX as int)
}

/// Upper case of a note name (`str::to_uppercase`): on ASCII text, `a-z`
/// raised and the rest kept.
pub open spec fn name_upper(s: Seq<char>) -> Seq<char> {
    if all_ascii(s) { ascii_upper(s) } else { str_uppercase(s) }
}

/// Index of the (upper-cased, flat-normalized) name of a trimmed note.
pub open spec fn note_name_index(t: Seq<char>) -> int {
    chromatic_index(normalize_flat(name_upper(t.subrange(0, name_len(t)))))
}

/// MIDI number of a note name such as "C4" (60), "F#3" (54) or "Bb4" (70):
/// `(octave + 1) * 12 + semitone`, checked in that order: octave, name, range.
pub open spec fn spec_note_midi(s: Seq<char>) -> Result<u8, Seq<char>> {
    let t = spec_trim(s);
    match note_octave(t) {
        None => Err("octave invalide"@),
        Some(o) => {
            let i = note_name_index(t);
            if i < 0 {
                Err("note inconnue"@)
            } else {
                let m = (o + 1) * 12 + i;
                if m < 0 || m > 127 {
                    Err("note hors limites MIDI"@)
                } else {
                    Ok(m as u8)
                }
            }
        },
    }
}

proof fn lemma_trim_plain(s: Seq<char>)
    requires
        s.len() > 0,
        !char_is_whitespace(s[0]),
        !char_is_whitespace(s.last()),
    ensures
        spec_trim(s) == s,
{
    assert(trim_start_index(s) == 0);
    assert(trim_end_count(s) == 0);
    assert(s.subrange(0, s.len() as int) =~= s);
}

/// A flat lies one semitone below its natural note: for the letters D, E,
/// G, A and B and any octave written in digits, the flat (`Eb4`) reads as
/// the MIDI number of the natural (`E4`) minus one, the same as the sharp of
/// the letter below (`D#4`).
pub proof fn flat_is_a_semitone_below(c: char, oct: Seq<char>)
    requires
        c == 'D' || c == 'E' || c == 'G' || c == 'A' || c == 'B',
        oct.len() > 0,
        forall|k: int| 0 <= k < oct.len() ==> '0' <= #[trigger] oct[k] <= '9',
    ensures
        spec_note_midi(seq![c] + oct) is Ok && spec_note_midi(seq![c] + oct)->Ok_0 >= 1 ==> spec_note_midi(seq![c, 'b'] + oct)
            == Ok::<u8, Seq<char>>((spec_note_midi(seq![c] + oct)->Ok_0 - 1) as u8),
{
    let natural = seq![c] + oct;
    let fl = seq![c, 'b'] + oct;
    assert(natural.last() == oct.last());
    assert(fl.last() == oct.last());
    assert('0' <= oct[oct.len() - 1] <= '9');
    lemma_trim_plain(natural);
    lemma_trim_plain(fl);
    assert(natural[1] == oct[0]);
    assert(name_len(natural) == 1);
    assert(name_len(fl) == 2);
    assert(natural.subrange(1, natural.len() as int) =~= oct);
    assert(fl.subrange(2, fl.len() as int) =~= oct);
    let nn = natural.subrange(0, 1);
    let fn_ = fl.subrange(0, 2);
    assert(nn =~= seq![c]);
    assert(fn_ =~= seq![c, 'b']);
    assert(all_ascii(nn));
    assert(all_ascii(fn_));
    assert(ascii_upper(nn) =~= seq![c]);
    assert(ascii_upper(fn_) =~= seq![c, 'B']);

    reveal_strlit("C");
    reveal_strlit("C#");
    reveal_strlit("D");
    reveal_strlit("D#");
    reveal_strlit("E");
    reveal_strlit("F");
    reveal_strlit("F#");
    reveal_strlit("G");
    reveal_strlit("G#");
    reveal_strlit("A");
    reveal_strlit("A#");
    reveal_strlit("B");
    reveal_strlit("DB");
    reveal_strlit("EB");
    reveal_strlit("GB");
    reveal_strlit("AB");
    reveal_strlit("BB");
    assert("C"@.len() == 1);
    assert("C#"@.len() == 2);
    assert("D"@.len() == 1);
    assert("D#"@.len() == 2);
    assert("E"@.len() == 1);
    assert("F"@.len() == 1);
    assert("F#"@.len() == 2);
    assert("G"@.len() == 1);
    assert("G#"@.len() == 2);
    assert("A"@.len() == 1);
    assert("A#"@.len() == 2);
    assert("B"@.len() == 1);
    assert("C"@[0] == 'C');
    assert("C#"@[0] == 'C');
    assert("D"@[0] == 'D');
    assert("D#"@[0] == 'D');
    assert("E"@[0] == 'E');
    assert("F"@[0] == 'F');
    assert("F#"@[0] == 'F');
    assert("G"@[0] == 'G');
    assert("G#"@[0] == 'G');
    assert("A"@[0] == 'A');
    assert("A#"@[0] == 'A');
    assert("B"@[0] == 'B');
    assert(note_octave(natural) == note_octave(fl));
    assert(name_upper(fn_) == seq![c, 'B']);
    assert(name_upper(nn) == seq![c]);
    assert(note_name_index(fl) == chromatic_index(normalize_flat(seq![c, 'B'])));
    assert(note_name_index(natural) == chromatic_index(normalize_flat(seq![c])));
    if c == 'D' {
        assert(seq![c, 'B'] =~= "DB"@);
        assert(seq![c] =~= "D"@);
        assert(normalize_flat(seq![c, 'B']) == "C#"@);
        assert(normalize_flat(seq![c]) == "D"@);
        assert(chromatic_index("C#"@) == 1);
        assert(chromatic_index("D"@) == 2);
    } else if c == 'E' {
        assert(seq![c, 'B'] =~= "EB"@);
        assert(seq![c] =~= "E"@);
        assert(normalize_flat(seq![c, 'B']) == "D#"@);
        assert(normalize_flat(seq![c]) == "E"@);
        assert(chromatic_index("D#"@) == 3);
        assert(chromatic_index("E"@) == 4);
    } else if c == 'G' {
        assert(seq![c, 'B'] =~= "GB"@);
        assert(seq![c] =~= "G"@);
        assert(normalize_flat(seq![c, 'B']) == "F#"@);
        assert(normalize_flat(seq![c]) == "G"@);
        assert(chromatic_index("F#"@) == 6);
        assert(chromatic_index("G"@) == 7);
    } else if c == 'A' {
        assert(seq![c, 'B'] =~= "AB"@);
        assert(seq![c] =~= "A"@);
        assert(normalize_flat(seq![c, 'B']) == "G#"@);
        assert(normalize_flat(seq![c]) == "A"@);
        assert(chromatic_index("G#"@) == 8);
        assert(chromatic_index("A"@) == 9);
    } else {
        assert(seq![c, 'B'] =~= "BB"@);
        assert(seq![c] =~= "B"@);
        assert(normalize_flat(seq![c, 'B']) == "A#"@);
        assert(normalize_flat(seq![c]) == "B"@);
        assert(chromatic_index("A#"@) == 10);
        assert(chromatic_index("B"@) == 11);
    }
    assert(note_name_index(fl) == note_name_index(natural) - 1);
}

/// A sharp lies one semitone above its natural note: for the letters C, D,
/// F, G and A and any octave written in digits, the sharp (`F#3`) reads as
/// the MIDI number of the natural (`F3`) plus one.
pub proof fn sharp_is_a_semitone_above(c: char, oct: Seq<char>)
    requires
        c == 'C' || c == 'D' || c == 'F' || c == 'G' || c == 'A',
        oct.len() > 0,
        forall|k: int| 0 <= k < oct.len() ==> '0' <= #[trigger] oct[k] <= '9',
    ensures
        spec_note_midi(seq![c] + oct) is Ok && spec_note_midi(seq![c] + oct)->Ok_0 < 127 ==> spec_note_midi(seq![c, '#'] + oct)
            == Ok::<u8, Seq<char>>((spec_note_midi(seq![c] + oct)->Ok_0 + 1) as u8),
{
    let natural = seq![c] + oct;
    let fl = seq![c, '#'] + oct;
    assert(natural.last() == oct.last());
    assert(fl.last() == oct.last());
    assert('0' <= oct[oct.len() - 1] <= '9');
    lemma_trim_plain(natural);
    lemma_trim_plain(fl);
    assert(natural[1] == oct[0]);
    assert(name_len(natural) == 1);
    assert(name_len(fl) == 2);
    assert(natural.subrange(1, natural.len() as int) =~= oct);
    assert(fl.subrange(2, fl.len() as int) =~= oct);
    let nn = natural.subrange(0, 1);
    let fn_ = fl.subrange(0, 2);
    assert(nn =~= seq![c]);
    assert(fn_ =~= seq![c, '#']);
    assert(all_ascii(nn));
    assert(all_ascii(fn_));
    assert(ascii_upper(nn) =~= seq![c]);
    assert(ascii_upper(fn_) =~= seq![c, '#']);

    reveal_strlit("C");
    reveal_strlit("C#");
    reveal_strlit("D");
    reveal_strlit("D#");
    reveal_strlit("E");
    reveal_strlit("F");
    reveal_strlit("F#");
    reveal_strlit("G");
    reveal_strlit("G#");
    reveal_strlit("A");
    reveal_strlit("A#");
    reveal_strlit("B");
    reveal_strlit("DB");
    reveal_strlit("EB");
    reveal_strlit("GB");
    reveal_strlit("AB");
    reveal_strlit("BB");
    assert("C"@.len() == 1);
    assert("C#"@.len() == 2);
    assert("D"@.len() == 1);
    assert("D#"@.len() == 2);
    assert("E"@.len() == 1);
    assert("F"@.len() == 1);
    assert("F#"@.len() == 2);
    assert("G"@.len() == 1);
    assert("G#"@.len() == 2);
    assert("A"@.len() == 1);
    assert("A#"@.len() == 2);
    assert("B"@.len() == 1);
    assert("C"@[0] == 'C');
    assert("C#"@[0] == 'C');
    assert("D"@[0] == 'D');
    assert("D#"@[0] == 'D');
    assert("E"@[0] == 'E');
    assert("F"@[0] == 'F');
    assert("F#"@[0] == 'F');
    assert("G"@[0] == 'G');
    assert("G#"@[0] == 'G');
    assert("A"@[0] == 'A');
    assert("A#"@[0] == 'A');
    assert("B"@[0] == 'B');
    assert(note_octave(natural) == note_octave(fl));
    assert(name_upper(fn_) == seq![c, '#']);
    assert(name_upper(nn) == seq![c]);
    assert(note_name_index(fl) == chromatic_index(normalize_flat(seq![c, '#'])));
    assert(note_name_index(natural) == chromatic_index(normalize_flat(seq![c])));
    if c == 'C' {
        assert(seq![c, '#'] =~= "C#"@);
        assert(seq![c] =~= "C"@);
        assert(normalize_flat(seq![c, '#']) == "C#"@);
        assert(normalize_flat(seq![c]) == "C"@);
        assert(chromatic_index("C#"@) == 1);
        assert(chromatic_index("C"@) == 0);
    } else if c == 'D' {
        assert(seq![c, '#'] =~= "D#"@);
        assert(seq![c] =~= "D"@);
        assert(normalize_flat(seq![c, '#']) == "D#"@);
        assert(normalize_flat(seq![c]) == "D"@);
        assert(chromatic_index("D#"@) == 3);
        assert(chromatic_index("D"@) == 2);
    } else if c == 'F' {
        assert(seq![c, '#'] =~= "F#"@);
        assert(seq![c] =~= "F"@);
        assert(normalize_flat(seq![c, '#']) == "F#"@);
        assert(normalize_flat(seq![c]) == "F"@);
        assert(chromatic_index("F#"@) == 6);
        assert(chromatic_index("F"@) == 5);
    } else if c == 'G' {
        assert(seq![c, '#'] =~= "G#"@);
        assert(seq![c] =~= "G"@);
        assert(normalize_flat(seq![c, '#']) == "G#"@);
        assert(normalize_flat(seq![c]) == "G"@);
        assert(chromatic_index("G#"@) == 8);
        assert(chromatic_index("G"@) == 7);
    } else {
        assert(seq![c, '#'] =~= "A#"@);
        assert(seq![c] =~= "A"@);
        assert(normalize_flat(seq![c, '#']) == "A#"@);
        assert(normalize_flat(seq![c]) == "A"@);
        assert(chromatic_index("A#"@) == 10);
        assert(chromatic_index("A"@) == 9);
    }
    assert(note_name_index(fl) == note_name_index(natural) + 1);
}

/// Inputs on which reading a note name cannot fail midway: something is
/// left after trimming, its first character is ASCII, and the MIDI number
/// computed from a valid octave and name fits in 32 bits.
pub open spec fn note_midi_defined(s: Seq<char>) -> bool {
    let t = spec_trim(s);
    &&& t.len() > 0
    &&& (t[0] as u32) < 128
    &&& (note_octave(t) is Some && note_name_index(t) >= 0 ==> {
        let o = note_octave(t)->0;
        &&& o + 1 <= i32::MAX
        &&& i32::MIN <= (o + 1) * 12
        &&& (o + 1) * 12 + note_name_index(t) <= i32::MAX
    })
}

fn chromatic_index_of(n: &str) -> (r: i64)
    ensures
        r == chromatic_index(n@),
{
    if str_eq(n, "C") {
        0
    } else if str_eq(n, "C#") {
        1
    } else if str_eq(n, "D") {
        2
    } else if str_eq(n, "D#") {
        3
    } else if str_eq(n, "E") {
        4
    } else if str_eq(n, "F") {
        5
    } else if str_eq(n, "F#") {
        6
    } else if str_eq(n, "G") {
        7
    } else if str_eq(n, "G#") {
        8
    } else if str_eq(n, "A") {
        9
    } else if str_eq(n, "A#") {
        10
    } else if str_eq(n, "B") {
        11
    } else {
        -1
    }
}

fn normalized_index(u: &str) -> (r: i64)
    ensures
        r == chromatic_index(normalize_flat(u@)),
{
    if str_eq(u, "DB") {
        chromatic_index_of("C#")
    } else if str_eq(u, "EB") {
        chromatic_index_of("D#")
    } else if str_eq(u, "GB") {
        chromatic_index_of("F#")
    } else if str_eq(u, "AB") {
        chromatic_index_of("G#")
    } else if str_eq(u, "BB") {
        chromatic_index_of("A#")
    } else {
        chromatic_index_of(u)
    }
}


/// Converts a note name (`[letter][#|b][octave]`, case-insensitive letter,
/// surrounding whitespace ignored) into a MIDI note number 0-127.
pub fn note_midi(s: &str) -> (r: Result<u8, String>)
    requires
        note_midi_defined(s@),
    ensures
        match r {
            Ok(m) => spec_note_midi(s@) == Ok::<u8, Seq<char>>(m),
            Err(e) => spec_note_midi(s@) == Err::<u8, Seq<char>>(e@),
        },
{
    let raw = chars_of(s);
    let t = trim_chars(&raw);
    let nl: usize = if t.len() > 1 && (t[1] == '#' || t[1] == 'b') { 2 } else { 1 };
    let octave_chars = copy_range(&t, nl, t.len());
    let o = match parse_signed_chars(&octave_chars, -2147483648, 2147483647) {
        Some(x) => x,
        None => {
            return Err(owned("octave invalide"));
        },
    };
    let name_chars = copy_range(&t, 0, nl);
    let name = crate::text::string_from_chars(name_chars.as_slice());
    let upper = to_uppercase(name.as_str());
    let i = normalized_index(upper.as_str());
    if i < 0 {
        return Err(owned("note inconnue"));
    }
    let m: i64 = (o + 1) * 12 + i;
    if m < 0 || m > 127 {
        return Err(owned("note hors limites MIDI"));
    }
    Ok(m as u8)
}

/// Whether `note_midi` can read `s` without failing midway (see
/// `note_midi_defined`); callers check it first.
pub fn note_midi_is_defined(s: &str) -> (r: bool)
    ensures
        r == note_midi_defined(s@),
{
    let raw = chars_of(s);
    let t = trim_chars(&raw);
    if t.len() == 0 || (t[0] as u32) >= 128 {
        return false;
    }
    let nl: usize = if t.len() > 1 && (t[1] == '#' || t[1] == 'b') { 2 } else { 1 };
    let octave_chars = copy_range(&t, nl, t.len());
    let o = match parse_signed_chars(&octave_chars, -2147483648, 2147483647) {
        Some(x) => x,
        None => {
            return true;
        },
    };
    let name_chars = copy_range(&t, 0, nl);
    let name = crate::text::string_from_chars(name_chars.as_slice());
    let upper = to_uppercase(name.as_str());
    let i = normalized_index(upper.as_str());
    if i < 0 {
        return true;
    }
    o + 1 <= 2147483647 && -2147483648 <= (o + 1) * 12 && (o + 1) * 12 + i <= 2147483647
}

/// The notes of `notes` that read as MIDI numbers, in order; a name that
/// cannot even be cut into a note and an octave (empty, or starting with a
/// non-ASCII character) or whose number does not fit in 32 bits is invalid
/// too.
pub open spec fn spec_notes_from_vec(notes: Seq<Seq<char>>) -> Seq<u8>
    decreases notes.len(),
{
    if notes.len() == 0 {
        Seq::empty()
    } else {
        let prev = spec_notes_from_vec(notes.drop_last());
        if !note_midi_defined(notes.last()) {
            prev
        } else {
            match spec_note_midi(notes.last()) {
                Ok(m) => prev.push(m),
                Err(_) => prev,
            }
        }
    }
}

/// The views of a list of strings.
pub open spec fn string_views(v: Seq<String>) -> Seq<Seq<char>> {
    v.map_values(|s: String| s@)
}

/// Converts note names into MIDI numbers, silently skipping invalid names
/// (such as the silence marker `_`).
pub fn notes_from_vec(notes: &[String]) -> (r: Vec<u8>)
    ensures
        r@ == spec_notes_from_vec(string_views(notes@)),
{
    let mut v: Vec<u8> = Vec::new();
    let mut i: usize = 0;
    while i < notes.len()
        invariant
            i <= notes@.len(),
            v@ == spec_notes_from_vec(string_views(notes@.subrange(0, i as int))),
        decreases notes@.len() - i,
    {
        proof {
            let s = notes@.subrange(0, i + 1);
            assert(string_views(s).drop_last() == string_views(notes@.subrange(0, i as int)));
            assert(string_views(s).last() == notes@[i as int]@);
        }
        if note_midi_is_defined(notes[i].as_str()) {
            match note_midi(notes[i].as_str()) {
                Ok(x) => {
                    v.push(x);
                },
                Err(_) => {},
            }
        }
        i = i + 1;
    }
    assert(notes@.subrange(0, notes@.len() as int) == notes@);
    v
}


/// Settings of a live play request (switches used when no track list is sent).
#[derive(Clone, Copy, Debug, PartialEq, Eq, Structural)]
pub struct PlaySettings {
    pub tempo: u32,
    /// Time-signature code (see `sig_code`).
    pub sig: u16,
    /// Pattern id (see `pat`).
    pub pattern: u8,
    pub walking: Option<bool>,
    pub inst_val: u16,
    pub arps: bool,
    pub bass: bool,
    pub nappes: bool,
    pub drums: bool,
}

/// A change of the mute state of the first track on `ch`.
pub open spec fn mute_change(ch: u8, mute: bool) -> TrackCfg {
    TrackCfg { channel: ch, program: None, volume: None, mute: Some(mute) }
}

/// Track changes of the switches: lead program and mute, then the bass,
/// pads and drum mutes.
pub open spec fn switch_changes(s: PlaySettings) -> Seq<TrackCfg> {
    seq![
        TrackCfg { channel: 0, program: Some(s.inst_val), volume: None, mute: Some(!s.arps) },
        mute_change(2, !s.bass),
        mute_change(3, !s.nappes),
        mute_change(9, !s.drums),
    ]
}

/// Starts live playback settings: tempo (when positive, kept on 16 bits),
/// signature, pattern, walking bass (when given), the stop flag cleared,
/// and the tracks from the list sent, or from the switches without one.
pub fn apply_play_settings(lc: &mut Live, s: &PlaySettings, tracks: Option<&[TrackCfg]>)
    ensures
        final(lc).tempo == (if s.tempo > 0 { (s.tempo % 65536) as u16 } else { old(lc).tempo }),
        final(lc).sig == s.sig,
        final(lc).pattern == s.pattern,
        !final(lc).stop,
        final(lc).walking == (match s.walking { Some(w) => w, None => old(lc).walking }),
        final(lc).master_vol == old(lc).master_vol,
        final(lc).use432 == old(lc).use432,
        final(lc).tracks@ == apply_all(old(lc).tracks@, match tracks { Some(t) => t@, None => switch_changes(*s) }),
{
    if s.tempo > 0 {
        lc.tempo = (s.tempo % 65536) as u16;
    }
    lc.sig = s.sig;
    lc.pattern = s.pattern;
    lc.stop = false;
    match s.walking {
        Some(w) => {
            lc.walking = w;
        },
        None => {},
    }
    match tracks {
        Some(t) => apply_tracks(lc, t),
        None => {
            let changes = vec![
                TrackCfg { channel: 0, program: Some(s.inst_val), volume: None, mute: Some(!s.arps) },
                TrackCfg { channel: 2, program: None, volume: None, mute: Some(!s.bass) },
                TrackCfg { channel: 3, program: None, volume: None, mute: Some(!s.nappes) },
                TrackCfg { channel: 9, program: None, volume: None, mute: Some(!s.drums) },
            ];
            assert(changes@ =~= switch_changes(*s));
            apply_tracks(lc, changes.as_slice());
        },
    }
}

/// A live configuration change (absent fields are left unchanged).
#[derive(Clone, Copy, Debug, PartialEq, Eq, Structural)]
pub struct ConfigChange {
    pub drums: Option<bool>,
    pub bass: Option<bool>,
    pub arpeggios: Option<bool>,
    pub nappes: Option<bool>,
    pub pattern: Option<u8>,
    pub tempo: Option<u16>,
    pub sig: Option<u16>,
    pub instrument: Option<u16>,
    pub walking: Option<bool>,
    pub master_vol: Option<u8>,
    pub use432: Option<bool>,
}

/// Track changes of a configuration change, in the order they apply:
/// drum, bass, lead and pad switches, then the lead instrument.
pub open spec fn config_changes(c: ConfigChange) -> Seq<TrackCfg> {
    (match c.drums { Some(v) => seq![mute_change(9, !v)], None => Seq::empty() })
        + (match c.bass { Some(v) => seq![mute_change(2, !v)], None => Seq::empty() })
        + (match c.arpeggios { Some(v) => seq![mute_change(0, !v)], None => Seq::empty() })
        + (match c.nappes { Some(v) => seq![mute_change(3, !v)], None => Seq::empty() })
        + (match c.instrument { Some(i) => seq![TrackCfg { channel: 0, program: Some(i), volume: None, mute: None }], None => Seq::empty() })
}

/// Pitch bend of the 432 Hz tuning (6881) or of the standard tuning (8192)
/// on the melodic channels 0, 2, 3 and 4.
pub open spec fn tuning_msgs(use432: bool) -> Seq<Seq<u8>> {
    let (l, m) = if use432 { (97u8, 53u8) } else { (0u8, 64u8) };
    seq![seq![0xE0u8, l, m], seq![0xE2u8, l, m], seq![0xE3u8, l, m], seq![0xE4u8, l, m]]
}

fn push_change(v: &mut Vec<TrackCfg>, c: TrackCfg)
    ensures
        final(v)@ == old(v)@.push(c),
{
    v.push(c);
}

#[verifier::spinoff_prover]
#[verifier::rlimit(30)]
fn config_change_list(c: &ConfigChange) -> (r: Vec<TrackCfg>)
    ensures
        r@ == config_changes(*c),
{
    let mut changes: Vec<TrackCfg> = Vec::new();
    match c.drums { Some(v) => push_change(&mut changes, TrackCfg { channel: 9, program: None, volume: None, mute: Some(!v) }), None => {} }
    match c.bass { Some(v) => push_change(&mut changes, TrackCfg { channel: 2, program: None, volume: None, mute: Some(!v) }), None => {} }
    match c.arpeggios { Some(v) => push_change(&mut changes, TrackCfg { channel: 0, program: None, volume: None, mute: Some(!v) }), None => {} }
    match c.nappes { Some(v) => push_change(&mut changes, TrackCfg { channel: 3, program: None, volume: None, mute: Some(!v) }), None => {} }
    match c.instrument { Some(i) => push_change(&mut changes, TrackCfg { channel: 0, program: Some(i), volume: None, mute: None }), None => {} }
    assert(changes@ =~= config_changes(*c));
    changes
}

/// The tuning bends (see `tuning_msgs`).
pub fn tuning_messages(use432: bool) -> (r: Vec<Vec<u8>>)
    ensures
        crate::mpe::msgs_view(r@) == tuning_msgs(use432),
{
    let (l, m): (u8, u8) = if use432 { (97, 53) } else { (0, 64) };
    let out = vec![vec![0xE0u8, l, m], vec![0xE2u8, l, m], vec![0xE3u8, l, m], vec![0xE4u8, l, m]];
    assert(crate::mpe::msgs_view(out@) =~= tuning_msgs(use432));
    out
}

/// Applies a configuration change to the live state; returns the messages
/// to send (the tuning bends when the 432 Hz setting changes).
pub fn apply_config(lc: &mut Live, c: &ConfigChange, tracks: Option<&[TrackCfg]>) -> (r: Vec<Vec<u8>>)
    ensures
        final(lc).tracks@ == apply_all(match tracks { Some(t) => apply_all(old(lc).tracks@, t@), None => old(lc).tracks@ }, config_changes(*c)),
        final(lc).pattern == (match c.pattern { Some(p) => p, None => old(lc).pattern }),
        final(lc).tempo == (match c.tempo { Some(t) => t, None => old(lc).tempo }),
        final(lc).sig == (match c.sig { Some(g) => g, None => old(lc).sig }),
        final(lc).walking == (match c.walking { Some(w) => w, None => old(lc).walking }),
        final(lc).master_vol == (match c.master_vol { Some(m) => m, None => old(lc).master_vol }),
        final(lc).use432 == (match c.use432 { Some(u) => u, None => old(lc).use432 }),
        final(lc).stop == old(lc).stop,
        crate::mpe::msgs_view(r@) == (match c.use432 {
            Some(u) => if u != old(lc).use432 { tuning_msgs(u) } else { Seq::empty() },
            None => Seq::empty(),
        }),
{
    let was = lc.use432;
    match tracks {
        Some(t) => apply_tracks(lc, t),
        None => {},
    }
    let changes = config_change_list(c);
    apply_tracks(lc, changes.as_slice());
    match c.pattern { Some(p) => { lc.pattern = p; }, None => {} }
    match c.tempo { Some(t) => { lc.tempo = t; }, None => {} }
    match c.sig { Some(g) => { lc.sig = g; }, None => {} }
    match c.walking { Some(w) => { lc.walking = w; }, None => {} }
    match c.master_vol { Some(m) => { lc.master_vol = m; }, None => {} }
    match c.use432 {
        Some(u) => {
            lc.use432 = u;
            if was != u {
                return tuning_messages(u);
            }
            let none: Vec<Vec<u8>> = Vec::new();
            assert(crate::mpe::msgs_view(none@) =~= Seq::<Seq<u8>>::empty());
            none
        },
        None => {
            let none: Vec<Vec<u8>> = Vec::new();
            assert(crate::mpe::msgs_view(none@) =~= Seq::<Seq<u8>>::empty());
            none
        },
    }
}

} // verus!
