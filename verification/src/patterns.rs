//! Drum patterns: identifiers, General MIDI drum keys, velocity scaling and
//! the hits each style plays on a given beat (live playback and offline
//! rendering).
use vstd::prelude::*;
use crate::text::str_eq;

verus! {

pub const PAT_ROCK: u8 = 0;
pub const PAT_REGGAE: u8 = 1;
pub const PAT_JAZZ: u8 = 2;
pub const PAT_POP: u8 = 3;
pub const PAT_BOSSA: u8 = 4;
pub const PAT_ONEDROP: u8 = 5;

pub const DRUM_KICK: u8 = 36;
pub const DRUM_SNARE: u8 = 38;
pub const DRUM_RIM: u8 = 37;
pub const DRUM_HH: u8 = 42;
pub const DRUM_HH_OPEN: u8 = 47;
pub const DRUM_RIDE: u8 = 51;
/// Pedal hi-hat (GM 44).
pub const DRUM_HH_PEDAL: u8 = 44;

pub const HH_BEAT: u8 = 80;
pub const HH_8TH: u8 = 65;

/// Pattern identifier of a style name; any other name is rock.
pub open spec fn spec_pat(s: Seq<char>) -> u8 {
    if s == "reggae"@ {
        PAT_REGGAE
    } else if s == "jazz"@ {
        PAT_JAZZ
    } else if s == "pop"@ {
        PAT_POP
    } else if s == "bossa"@ {
        PAT_BOSSA
    } else if s == "onedrop"@ {
        PAT_ONEDROP
    } else {
        PAT_ROCK
    }
}

/// Converts a style name sent by the frontend into a pattern identifier
/// (rock for any unknown name).
pub fn pat(s: &str) -> (r: u8)
    ensures
        r == spec_pat(s@),
{
    if str_eq(s, "reggae") {
        PAT_REGGAE
    } else if str_eq(s, "jazz") {
        PAT_JAZZ
    } else if str_eq(s, "pop") {
        PAT_POP
    } else if str_eq(s, "bossa") {
        PAT_BOSSA
    } else if str_eq(s, "onedrop") {
        PAT_ONEDROP
    } else {
        PAT_ROCK
    }
}

/// `(vol * base) / 127`, capped at 127.
pub open spec fn spec_sc(vol: u8, base: u8) -> u8 {
    let q = (vol as int) * (base as int) / 127;
    if q > 127 {
        127
    } else {
        q as u8
    }
}

/// Scales a velocity by a track volume: `(vol * base) / 127`, capped at 127.
pub fn sc(vol: u8, base: u8) -> (r: u8)
    ensures
        r == spec_sc(vol, base),
{
    assert((vol as int) * (base as int) <= 255 * 255) by (nonlinear_arith)
        requires
            vol <= 255,
            base <= 255,
    ;
    let p: u16 = (vol as u16) * (base as u16);
    let q: u16 = p / 127;
    if q > 127 {
        127
    } else {
        q as u8
    }
}

/// The notes (key, velocity) the live drum track plays on `beat`, on the
/// beat (`on_beat`) or on its eighth (`on_eighth`), for a bar of `bars` beats.
pub open spec fn spec_live_drum_hits(
    beat: u64,
    pat: u8,
    on_beat: bool,
    on_eighth: bool,
    bars: u64,
    vol: u8,
    mv: u8,
) -> Seq<(u8, u8)> {
    let v = spec_sc(vol, mv);
    let b = beat % bars;
    let b8 = beat % 8;
    if !on_beat && !on_eighth {
        seq![]
    } else if pat == PAT_REGGAE {
        if on_beat {
            if b == 0 || b == 1 || b == 3 {
                seq![(DRUM_HH, spec_sc(v, 60))]
            } else if b == 2 {
                seq![(DRUM_KICK, spec_sc(v, 120)), (DRUM_HH, spec_sc(v, 65)), (DRUM_RIM, spec_sc(v, 90))]
            } else if b == 4 {
                seq![(DRUM_HH_OPEN, spec_sc(v, 55))]
            } else {
                seq![]
            }
        } else if b == 0 || b == 2 {
            seq![(DRUM_HH, spec_sc(v, 65))]
        } else {
            seq![]
        }
    } else if pat == PAT_JAZZ {
        if on_beat {
            if b8 == 1 || b8 == 3 {
                seq![(DRUM_HH_PEDAL, spec_sc(v, 40)), (DRUM_RIDE, spec_sc(v, 60))]
            } else {
                seq![(DRUM_RIDE, spec_sc(v, 55))]
            }
        } else if b8 == 3 {
            seq![(DRUM_RIDE, spec_sc(v, 65))]
        } else {
            seq![]
        }
    } else if pat == PAT_POP {
        if on_beat {
            if b8 == 0 {
                seq![(DRUM_KICK, spec_sc(v, 85)), (DRUM_HH, spec_sc(v, 85))]
            } else if b8 == 2 {
                seq![(DRUM_SNARE, spec_sc(v, 70)), (DRUM_HH, spec_sc(v, 85))]
            } else if b8 == 3 {
                seq![(DRUM_HH, spec_sc(v, 85)), (DRUM_KICK, spec_sc(v, 85))]
            } else if b8 == 4 {
                seq![(DRUM_KICK, spec_sc(v, 75)), (DRUM_HH, spec_sc(v, 85))]
            } else if b8 == 6 {
                seq![(DRUM_SNARE, spec_sc(v, 65)), (DRUM_HH, spec_sc(v, 85))]
            } else {
                seq![(DRUM_HH, spec_sc(v, 85))]
            }
        } else {
            seq![(DRUM_HH, spec_sc(v, 45))]
        }
    } else if pat == PAT_BOSSA {
        if on_beat {
            if b == 0 {
                seq![(DRUM_KICK, spec_sc(v, 55)), (DRUM_HH, spec_sc(v, 45))]
            } else if b == 1 {
                seq![(DRUM_SNARE, spec_sc(v, 30)), (DRUM_HH, spec_sc(v, 45))]
            } else if b == 2 {
                seq![(DRUM_KICK, spec_sc(v, 60)), (DRUM_HH, spec_sc(v, 45))]
            } else if b == 3 {
                seq![(DRUM_KICK, spec_sc(v, 50)), (DRUM_HH, spec_sc(v, 45))]
            } else {
                seq![]
            }
        } else {
            seq![(DRUM_HH, spec_sc(v, 10))]
        }
    } else if pat == PAT_ONEDROP {
        if on_beat {
            if b == 0 {
                seq![(DRUM_KICK, spec_sc(v, 90)), (DRUM_HH, spec_sc(v, 55))]
            } else if b == 1 {
                seq![(DRUM_HH, spec_sc(v, 10))]
            } else if b == 2 {
                seq![(DRUM_KICK, spec_sc(v, 90)), (DRUM_RIM, spec_sc(v, 65)), (DRUM_HH, spec_sc(v, 45))]
            } else if b == 3 {
                seq![(DRUM_HH, spec_sc(v, 55))]
            } else {
                seq![]
            }
        } else {
            seq![]
        }
    } else {
        if on_beat {
            if b == 0 {
                seq![(DRUM_KICK, spec_sc(v, 90)), (DRUM_HH, spec_sc(v, HH_BEAT))]
            } else if b == 1 {
                seq![(DRUM_SNARE, spec_sc(v, 75)), (DRUM_HH, spec_sc(v, HH_BEAT))]
            } else if b == 2 {
                seq![(DRUM_KICK, spec_sc(v, 80)), (DRUM_HH, spec_sc(v, HH_BEAT))]
            } else if b == 3 {
                seq![(DRUM_SNARE, spec_sc(v, 70)), (DRUM_HH, spec_sc(v, HH_BEAT))]
            } else {
                seq![]
            }
        } else {
            seq![(DRUM_HH, spec_sc(v, HH_8TH))]
        }
    }
}

/// The drum notes (key, velocity) of one live step, all on the GM drum
/// channel. `bars` is the number of beats per bar (at least one).
pub fn live_drum_hits(
    beat: u64,
    pat: u8,
    on_beat: bool,
    on_eighth: bool,
    bars: u64,
    vol: u8,
    mv: u8,
) -> (r: Vec<(u8, u8)>)
    requires
        bars > 0,
    ensures
        r@ == spec_live_drum_hits(beat, pat, on_beat, on_eighth, bars, vol, mv),
{
    if !on_beat && !on_eighth {
        return vec![];
    }
    let v = sc(vol, mv);
    let b = beat % bars;
    let b8 = beat % 8;
    let r = if pat == PAT_REGGAE {
        if on_beat {
            if b == 0 || b == 1 || b == 3 {
                vec![(DRUM_HH, sc(v, 60))]
            } else if b == 2 {
                vec![(DRUM_KICK, sc(v, 120)), (DRUM_HH, sc(v, 65)), (DRUM_RIM, sc(v, 90))]
            } else if b == 4 {
                vec![(DRUM_HH_OPEN, sc(v, 55))]
            } else {
                vec![]
            }
        } else if b == 0 || b == 2 {
            vec![(DRUM_HH, sc(v, 65))]
        } else {
            vec![]
        }
    } else if pat == PAT_JAZZ {
        if on_beat {
            if b8 == 1 || b8 == 3 {
                vec![(DRUM_HH_PEDAL, sc(v, 40)), (DRUM_RIDE, sc(v, 60))]
            } else {
                vec![(DRUM_RIDE, sc(v, 55))]
            }
        } else if b8 == 3 {
            vec![(DRUM_RIDE, sc(v, 65))]
        } else {
            vec![]
        }
    } else if pat == PAT_POP {
        if on_beat {
            if b8 == 0 {
                vec![(DRUM_KICK, sc(v, 85)), (DRUM_HH, sc(v, 85))]
            } else if b8 == 2 {
                vec![(DRUM_SNARE, sc(v, 70)), (DRUM_HH, sc(v, 85))]
            } else if b8 == 3 {
                vec![(DRUM_HH, sc(v, 85)), (DRUM_KICK, sc(v, 85))]
            } else if b8 == 4 {
                vec![(DRUM_KICK, sc(v, 75)), (DRUM_HH, sc(v, 85))]
            } else if b8 == 6 {
                vec![(DRUM_SNARE, sc(v, 65)), (DRUM_HH, sc(v, 85))]
            } else {
                vec![(DRUM_HH, sc(v, 85))]
            }
        } else {
            vec![(DRUM_HH, sc(v, 45))]
        }
    } else if pat == PAT_BOSSA {
        if on_beat {
            if b == 0 {
                vec![(DRUM_KICK, sc(v, 55)), (DRUM_HH, sc(v, 45))]
            } else if b == 1 {
                vec![(DRUM_SNARE, sc(v, 30)), (DRUM_HH, sc(v, 45))]
            } else if b == 2 {
                vec![(DRUM_KICK, sc(v, 60)), (DRUM_HH, sc(v, 45))]
            } else if b == 3 {
                vec![(DRUM_KICK, sc(v, 50)), (DRUM_HH, sc(v, 45))]
            } else {
                vec![]
            }
        } else {
            vec![(DRUM_HH, sc(v, 10))]
        }
    } else if pat == PAT_ONEDROP {
        if on_beat {
            if b == 0 {
                vec![(DRUM_KICK, sc(v, 90)), (DRUM_HH, sc(v, 55))]
            } else if b == 1 {
                vec![(DRUM_HH, sc(v, 10))]
            } else if b == 2 {
                vec![(DRUM_KICK, sc(v, 90)), (DRUM_RIM, sc(v, 65)), (DRUM_HH, sc(v, 45))]
            } else if b == 3 {
                vec![(DRUM_HH, sc(v, 55))]
            } else {
                vec![]
            }
        } else {
            vec![]
        }
    } else {
        if on_beat {
            if b == 0 {
                vec![(DRUM_KICK, sc(v, 90)), (DRUM_HH, sc(v, HH_BEAT))]
            } else if b == 1 {
                vec![(DRUM_SNARE, sc(v, 75)), (DRUM_HH, sc(v, HH_BEAT))]
            } else if b == 2 {
                vec![(DRUM_KICK, sc(v, 80)), (DRUM_HH, sc(v, HH_BEAT))]
            } else if b == 3 {
                vec![(DRUM_SNARE, sc(v, 70)), (DRUM_HH, sc(v, HH_BEAT))]
            } else {
                vec![]
            }
        } else {
            vec![(DRUM_HH, sc(v, HH_8TH))]
        }
    };
    assert(r@ =~= spec_live_drum_hits(beat, pat, on_beat, on_eighth, bars, vol, mv));
    r
}

/// One hit of the rendered drum track: key, velocity, and whether it falls
/// on the eighth after the beat (`upbeat`) rather than on the beat.
#[derive(Clone, Copy, Debug, PartialEq, Eq, Structural)]
pub struct DrumHit {
    pub pitch: u8,
    pub velocity: u8,
    pub upbeat: bool,
}

pub open spec fn on(p: u8, v: u8) -> DrumHit {
    DrumHit { pitch: p, velocity: v, upbeat: false }
}

pub open spec fn up(p: u8, v: u8) -> DrumHit {
    DrumHit { pitch: p, velocity: v, upbeat: true }
}

/// The hits of the rendered drum track on beat `bar_beat` of the bar, for
/// a track volume `dv`; `play_up` adds the eighth after the beat.
pub open spec fn spec_render_drum_hits(pat: u8, bar_beat: u32, dv: u8, play_up: bool) -> Seq<DrumHit> {
    let b4 = bar_beat % 4;
    let on_beat: Seq<DrumHit> = if pat == PAT_REGGAE {
        if bar_beat == 0 || bar_beat == 1 || bar_beat == 3 {
            seq![on(DRUM_HH, spec_sc(dv, 60))]
        } else if bar_beat == 2 {
            seq![on(DRUM_KICK, spec_sc(dv, 120)), on(DRUM_HH, spec_sc(dv, 65)), on(DRUM_RIM, spec_sc(dv, 90))]
        } else {
            seq![]
        }
    } else if pat == PAT_JAZZ {
        let b8 = bar_beat % 8;
        if b8 == 0 || b8 == 2 || b8 == 6 {
            seq![on(DRUM_RIDE, spec_sc(dv, 60))]
        } else if b8 == 4 {
            seq![on(DRUM_RIDE, spec_sc(dv, 60)), on(DRUM_HH_PEDAL, spec_sc(dv, 40))]
        } else if b8 == 7 {
            seq![on(DRUM_RIDE, spec_sc(dv, 60)), on(DRUM_HH_PEDAL, spec_sc(dv, 40)), on(DRUM_RIM, spec_sc(dv, 50))]
        } else {
            seq![]
        }
    } else if pat == PAT_POP {
        if b4 == 0 {
            seq![on(DRUM_KICK, spec_sc(dv, 85)), on(DRUM_HH, spec_sc(dv, 50))]
        } else if b4 == 1 {
            seq![on(DRUM_SNARE, spec_sc(dv, 70)), on(DRUM_HH, spec_sc(dv, 50))]
        } else if b4 == 2 {
            seq![on(DRUM_KICK, spec_sc(dv, 75))]
        } else {
            seq![on(DRUM_SNARE, spec_sc(dv, 65)), on(DRUM_HH, spec_sc(dv, 50))]
        }
    } else if pat == PAT_BOSSA {
        if b4 == 0 {
            seq![on(DRUM_KICK, spec_sc(dv, 55)), on(DRUM_HH, spec_sc(dv, 45))]
        } else if b4 == 1 {
            seq![on(DRUM_SNARE, spec_sc(dv, 30)), on(DRUM_HH, spec_sc(dv, 45))]
        } else if b4 == 2 {
            seq![on(DRUM_KICK, spec_sc(dv, 60)), on(DRUM_HH, spec_sc(dv, 45))]
        } else {
            seq![on(DRUM_KICK, spec_sc(dv, 50)), on(DRUM_HH, spec_sc(dv, 45))]
        }
    } else if pat == PAT_ONEDROP {
        if b4 == 0 {
            seq![on(DRUM_KICK, spec_sc(dv, 90)), on(DRUM_HH, spec_sc(dv, 55))]
        } else if b4 == 1 {
            seq![on(DRUM_HH, spec_sc(dv, 10))]
        } else if b4 == 2 {
            seq![on(DRUM_KICK, spec_sc(dv, 90)), on(DRUM_RIM, spec_sc(dv, 65)), on(DRUM_HH, spec_sc(dv, 45))]
        } else {
            seq![on(DRUM_HH, spec_sc(dv, 55))]
        }
    } else {
        if b4 == 0 {
            seq![on(DRUM_KICK, spec_sc(dv, 90)), on(DRUM_HH, spec_sc(dv, 80))]
        } else if b4 == 1 {
            seq![on(DRUM_SNARE, spec_sc(dv, 75)), on(DRUM_HH, spec_sc(dv, 80))]
        } else if b4 == 2 {
            seq![on(DRUM_KICK, spec_sc(dv, 80)), on(DRUM_HH, spec_sc(dv, 80))]
        } else {
            seq![on(DRUM_SNARE, spec_sc(dv, 70)), on(DRUM_HH, spec_sc(dv, 80))]
        }
    };
    let upbeat_vel: u8 = if pat == PAT_JAZZ {
        35
    } else if pat == PAT_POP {
        spec_sc(dv, 45)
    } else if pat == PAT_REGGAE || pat == PAT_BOSSA || pat == PAT_ONEDROP {
        spec_sc(dv, 10)
    } else {
        spec_sc(dv, 65)
    };
    if play_up {
        on_beat.push(up(DRUM_HH, upbeat_vel))
    } else {
        on_beat
    }
}

fn hit(p: u8, v: u8, upbeat: bool) -> (h: DrumHit)
    ensures
        h == (DrumHit { pitch: p, velocity: v, upbeat }),
{
    DrumHit { pitch: p, velocity: v, upbeat }
}

/// Drum hits of the offline render on one beat of the bar.
pub fn render_drum_hits(pat: u8, bar_beat: u32, dv: u8, play_up: bool) -> (r: Vec<DrumHit>)
    ensures
        r@ == spec_render_drum_hits(pat, bar_beat, dv, play_up),
{
    let b4 = bar_beat % 4;
    let mut r: Vec<DrumHit> = if pat == PAT_REGGAE {
        if bar_beat == 0 || bar_beat == 1 || bar_beat == 3 {
            vec![hit(DRUM_HH, sc(dv, 60), false)]
        } else if bar_beat == 2 {
            vec![hit(DRUM_KICK, sc(dv, 120), false), hit(DRUM_HH, sc(dv, 65), false), hit(DRUM_RIM, sc(dv, 90), false)]
        } else {
            vec![]
        }
    } else if pat == PAT_JAZZ {
        let b8 = bar_beat % 8;
        if b8 == 0 || b8 == 2 || b8 == 6 {
            vec![hit(DRUM_RIDE, sc(dv, 60), false)]
        } else if b8 == 4 {
            vec![hit(DRUM_RIDE, sc(dv, 60), false), hit(DRUM_HH_PEDAL, sc(dv, 40), false)]
        } else if b8 == 7 {
            vec![hit(DRUM_RIDE, sc(dv, 60), false), hit(DRUM_HH_PEDAL, sc(dv, 40), false), hit(DRUM_RIM, sc(dv, 50), false)]
        } else {
            vec![]
        }
    } else if pat == PAT_POP {
        if b4 == 0 {
            vec![hit(DRUM_KICK, sc(dv, 85), false), hit(DRUM_HH, sc(dv, 50), false)]
        } else if b4 == 1 {
            vec![hit(DRUM_SNARE, sc(dv, 70), false), hit(DRUM_HH, sc(dv, 50), false)]
        } else if b4 == 2 {
            vec![hit(DRUM_KICK, sc(dv, 75), false)]
        } else {
            vec![hit(DRUM_SNARE, sc(dv, 65), false), hit(DRUM_HH, sc(dv, 50), false)]
        }
    } else if pat == PAT_BOSSA {
        if b4 == 0 {
            vec![hit(DRUM_KICK, sc(dv, 55), false), hit(DRUM_HH, sc(dv, 45), false)]
        } else if b4 == 1 {
            vec![hit(DRUM_SNARE, sc(dv, 30), false), hit(DRUM_HH, sc(dv, 45), false)]
        } else if b4 == 2 {
            vec![hit(DRUM_KICK, sc(dv, 60), false), hit(DRUM_HH, sc(dv, 45), false)]
        } else {
            vec![hit(DRUM_KICK, sc(dv, 50), false), hit(DRUM_HH, sc(dv, 45), false)]
        }
    } else if pat == PAT_ONEDROP {
        if b4 == 0 {
            vec![hit(DRUM_KICK, sc(dv, 90), false), hit(DRUM_HH, sc(dv, 55), false)]
        } else if b4 == 1 {
            vec![hit(DRUM_HH, sc(dv, 10), false)]
        } else if b4 == 2 {
            vec![hit(DRUM_KICK, sc(dv, 90), false), hit(DRUM_RIM, sc(dv, 65), false), hit(DRUM_HH, sc(dv, 45), false)]
        } else {
            vec![hit(DRUM_HH, sc(dv, 55), false)]
        }
    } else {
        if b4 == 0 {
            vec![hit(DRUM_KICK, sc(dv, 90), false), hit(DRUM_HH, sc(dv, 80), false)]
        } else if b4 == 1 {
            vec![hit(DRUM_SNARE, sc(dv, 75), false), hit(DRUM_HH, sc(dv, 80), false)]
        } else if b4 == 2 {
            vec![hit(DRUM_KICK, sc(dv, 80), false), hit(DRUM_HH, sc(dv, 80), false)]
        } else {
            vec![hit(DRUM_SNARE, sc(dv, 70), false), hit(DRUM_HH, sc(dv, 80), false)]
        }
    };
    let ghost before = r@;
    if play_up {
        let uv: u8 = if pat == PAT_JAZZ {
            35
        } else if pat == PAT_POP {
            sc(dv, 45)
        } else if pat == PAT_REGGAE || pat == PAT_BOSSA || pat == PAT_ONEDROP {
            sc(dv, 10)
        } else {
            sc(dv, 65)
        };
        r.push(hit(DRUM_HH, uv, true));
    }
    assert(r@ =~= spec_render_drum_hits(pat, bar_beat, dv, play_up));
    r
}

/// Some hit of `hits` on the beat itself plays drum `p`.
pub open spec fn plays_on_beat(hits: Seq<DrumHit>, p: u8) -> bool {
    exists|k: int| 0 <= k < hits.len() && (#[trigger] hits[k]).pitch == p && !hits[k].upbeat
}

/// No hit of `hits` plays drum `p`.
pub open spec fn never_plays(hits: Seq<DrumHit>, p: u8) -> bool {
    forall|k: int| 0 <= k < hits.len() ==> (#[trigger] hits[k]).pitch != p
}

/// Backbeat of the rendered rock and pop patterns: on beats 2 and 4 of the
/// bar the snare plays and the kick does not; on beats 1 and 3 the kick
/// plays and the snare does not.
pub proof fn rock_and_pop_backbeat(pat: u8, bar_beat: u32, dv: u8, play_up: bool)
    requires
        pat == PAT_ROCK || pat == PAT_POP,
    ensures
        ({
            let hits = spec_render_drum_hits(pat, bar_beat, dv, play_up);
            &&& (bar_beat % 4 == 1 || bar_beat % 4 == 3) ==> plays_on_beat(hits, DRUM_SNARE) && never_plays(hits, DRUM_KICK)
            &&& (bar_beat % 4 == 0 || bar_beat % 4 == 2) ==> plays_on_beat(hits, DRUM_KICK) && never_plays(hits, DRUM_SNARE)
        }),
{
    let hits = spec_render_drum_hits(pat, bar_beat, dv, play_up);
    assert(hits.len() >= 1);
    if bar_beat % 4 == 1 || bar_beat % 4 == 3 || bar_beat % 4 == 0 {
        assert(hits[0].pitch == (if bar_beat % 4 == 0 { DRUM_KICK } else { DRUM_SNARE }) && !hits[0].upbeat);
    } else {
        assert(hits[0].pitch == DRUM_KICK && !hits[0].upbeat);
    }
}

/// Backbeat of the live rock pattern: on beats 2 and 4 of a four-beat bar
/// the snare plays and the kick does not; on beats 1 and 3 the kick plays
/// and the snare does not.
pub proof fn live_rock_backbeat(beat: u64, vol: u8, mv: u8)
    ensures
        ({
            let hits = spec_live_drum_hits(beat, PAT_ROCK, true, false, 4, vol, mv);
            &&& (beat % 4 == 1 || beat % 4 == 3) ==> (exists|k: int| 0 <= k < hits.len() && (#[trigger] hits[k]).0 == DRUM_SNARE)
                && forall|k: int| 0 <= k < hits.len() ==> (#[trigger] hits[k]).0 != DRUM_KICK
            &&& (beat % 4 == 0 || beat % 4 == 2) ==> (exists|k: int| 0 <= k < hits.len() && (#[trigger] hits[k]).0 == DRUM_KICK)
                && forall|k: int| 0 <= k < hits.len() ==> (#[trigger] hits[k]).0 != DRUM_SNARE
        }),
{
    let hits = spec_live_drum_hits(beat, PAT_ROCK, true, false, 4, vol, mv);
    assert(hits.len() == 2);
    assert(hits[0].0 == (if beat % 4 == 0 || beat % 4 == 2 { DRUM_KICK } else { DRUM_SNARE }));
}

} // verus!
