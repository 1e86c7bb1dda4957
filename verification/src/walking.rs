//! Walking bass: four notes per bar that walk towards the next chord.
//!
//! Beat 1 is the root, beats 2 and 3 are chord tones taken from the bass
//! register (`MIN_NOTE..=MAX_NOTE`), beat 4 approaches the next root.
//! The choice is driven by a deterministic seed.
use vstd::prelude::*;

verus! {

/// Lowest note allowed for the walking line (C1).
pub const MIN_NOTE: u8 = 22;
/// Highest note allowed for the walking line (E2).
pub const MAX_NOTE: u8 = 42;

/// One octave up when below the register, one octave down when above.
pub open spec fn spec_bass_clamp(n: u8) -> u8 {
    if n < MIN_NOTE {
        (n + 12) as u8
    } else if n > MAX_NOTE {
        (n - 12) as u8
    } else {
        n
    }
}

/// Keeps a MIDI note in the bass register by moving it one octave.
pub fn bass_clamp(n: u8) -> (r: u8)
    ensures
        r == spec_bass_clamp(n),
{
    if n < MIN_NOTE {
        n + 12
    } else if n > MAX_NOTE {
        n - 12
    } else {
        n
    }
}

/// A note already in the bass register is left where it is.
pub proof fn bass_clamp_stable(n: u8)
    requires
        MIN_NOTE <= n <= MAX_NOTE,
    ensures
        spec_bass_clamp(n) == n,
{
}

/// A note at most an octave away from the bass register is brought into it.
pub proof fn bass_clamp_into_register(n: u8)
    requires
        MIN_NOTE - 12 <= n <= MAX_NOTE + 12,
    ensures
        MIN_NOTE <= spec_bass_clamp(n) <= MAX_NOTE,
{
}

/// Interval in semitones from `root` up to `n`, folded over the octave
/// boundary when `n` lies below the root.
pub open spec fn interval_from(root: u8, n: u8) -> int {
    if n >= root {
        n - root
    } else {
        n + 12 - root
    }
}

/// A chord is minor when some note lies a minor third above the first one
/// and none lies a major third above it; fewer than two notes is not minor.
pub open spec fn spec_is_minor(notes: Seq<u8>) -> bool {
    &&& notes.len() >= 2
    &&& exists|i: int| 0 <= i < notes.len() && interval_from(notes[0], notes[i]) == 3
    &&& !exists|i: int| 0 <= i < notes.len() && interval_from(notes[0], notes[i]) == 4
}

/// The folded interval is computed in 8 bits: a note below the root must
/// leave room for the octave added to it and lie at most an octave below.
pub open spec fn is_minor_defined(notes: Seq<u8>) -> bool {
    notes.len() >= 2 ==> forall|i: int|
        0 <= i < notes.len() && #[trigger] notes[i] < notes[0] ==> notes[i] + 12 <= 255
            && notes[0] - notes[i] <= 12
}

/// Tells whether a chord (root first) is minor: minor third present,
/// major third absent.
pub fn is_minor(midi_notes: &[u8]) -> (r: bool)
    requires
        is_minor_defined(midi_notes@),
    ensures
        r == spec_is_minor(midi_notes@),
{
    if midi_notes.len() < 2 {
        return false;
    }
    let root = midi_notes[0];
    let mut has_minor = false;
    let mut has_major = false;
    let mut i: usize = 0;
    while i < midi_notes.len()
        invariant
            i <= midi_notes@.len(),
            midi_notes@.len() >= 2,
            root == midi_notes@[0],
            is_minor_defined(midi_notes@),
            has_minor == exists|k: int| 0 <= k < i && interval_from(root, midi_notes@[k]) == 3,
            has_major == exists|k: int| 0 <= k < i && interval_from(root, midi_notes@[k]) == 4,
        decreases midi_notes@.len() - i,
    {
        let n = midi_notes[i];
        let interval = if n >= root {
            n - root
        } else {
            assert(midi_notes@[i as int] < midi_notes@[0]);
            n + 12 - root
        };
        if interval == 3 {
            has_minor = true;
        } else if interval == 4 {
            has_major = true;
        }
        i = i + 1;
    }
    has_minor && !has_major
}

/// Chord tones taken into the bass register (the notes after the root), or
/// the fifth below the root when the chord has no other note.
pub open spec fn clamped_tones(chord: Seq<u8>) -> Seq<u8> {
    if chord.len() > 1 {
        chord.subrange(1, chord.len() as int).map_values(|n: u8| spec_bass_clamp(n))
    } else {
        seq![if chord[0] >= 5 { (chord[0] - 5) as u8 } else { 0u8 }]
    }
}

/// The distinct values below `n` present in `s`, in increasing order,
/// leaving out `skip`.
pub open spec fn asc_values(s: Seq<u8>, skip: int, n: nat) -> Seq<u8>
    decreases n,
{
    if n == 0 {
        Seq::empty()
    } else {
        let prev = asc_values(s, skip, (n - 1) as nat);
        if s.contains((n - 1) as u8) && (n - 1) != skip {
            prev.push((n - 1) as u8)
        } else {
            prev
        }
    }
}

/// The chord tones of the walking line: sorted, without duplicates.
pub open spec fn walking_tones(chord: Seq<u8>) -> Seq<u8> {
    asc_values(clamped_tones(chord), -1, 256)
}

/// Distance between two notes.
pub open spec fn note_dist(a: u8, b: u8) -> int {
    if a > b {
        a - b
    } else {
        b - a
    }
}

/// The first note of `t` closest to `target`.
pub open spec fn closest_tone(t: Seq<u8>, target: u8) -> u8
    decreases t.len(),
{
    if t.len() <= 1 {
        t[0]
    } else {
        let c = closest_tone(t.drop_last(), target);
        if note_dist(t.last(), target) < note_dist(c, target) {
            t.last()
        } else {
            c
        }
    }
}

/// An 8-bit value taken modulo 256.
pub open spec fn wrap8(x: int) -> u8 {
    (x % 256) as u8
}

/// The seed taken as an index (truncated to the machine word).
pub open spec fn seed_index(seed: u64, len: int) -> int {
    (seed as usize) as int % len
}

/// Beat 2: on a minor chord a quarter of the seeds give root + 2 and another
/// quarter root - 10 (taken modulo 256); otherwise a chord tone picked by the seed.
pub open spec fn walking_beat2(chord: Seq<u8>, seed: u64, minor: bool) -> int {
    let t = walking_tones(chord);
    if minor && seed % 100 < 25 {
        chord[0] + 2
    } else if minor && seed % 100 < 50 {
        wrap8(chord[0] - 10) as int
    } else {
        t[seed_index(seed, t.len() as int)] as int
    }
}

/// Beat 3: a chord tone different from beat 2, picked by seed + 7, or the
/// fifth above beat 2 when every tone equals beat 2.
pub open spec fn walking_beat3(chord: Seq<u8>, seed: u64, b2: int) -> int {
    let f = asc_values(clamped_tones(chord), b2, 256);
    if f.len() == 0 {
        b2 + 7
    } else {
        f[seed_index(vstd::wrapping::u64_specs::wrapping_add(seed, 7), f.len() as int)] as int
    }
}

/// First chromatic try: one semitone above the next root on even seeds,
/// one below on odd seeds (modulo 256).
pub open spec fn chromatic_try1(next_root: u8, seed: u64) -> u8 {
    if seed % 2 == 0 { wrap8(next_root + 1) } else { wrap8(next_root - 1) }
}

/// Second try: the opposite direction when the first is out of the register.
pub open spec fn chromatic_try2(next_root: u8, seed: u64) -> u8 {
    let a = chromatic_try1(next_root, seed);
    if a < MIN_NOTE || a > MAX_NOTE {
        if seed % 2 == 0 { wrap8(next_root - 1) } else { wrap8(next_root + 1) }
    } else {
        a
    }
}

/// Third step: one octave above the next root when still below the register.
pub open spec fn chromatic_try3(next_root: u8, seed: u64) -> int {
    let a = chromatic_try2(next_root, seed);
    if a < MIN_NOTE { next_root + 12 } else { a as int }
}

/// Beat 4: approach of the next root (chromatic, dominant, subdominant or
/// nearest chord tone, by the seed).
pub open spec fn walking_beat4(chord: Seq<u8>, next_root: u8, seed: u64) -> int {
    let s = seed % 100;
    if s < 50 {
        let a = chromatic_try3(next_root, seed);
        if a > MAX_NOTE { next_root - 12 } else { a }
    } else if s < 68 {
        let a = next_root + 7;
        if a > MAX_NOTE { a - 12 } else { a }
    } else if s < 86 {
        let a = wrap8(next_root - 5);
        if a < MIN_NOTE { a + 12 } else { a as int }
    } else {
        closest_tone(walking_tones(chord), next_root) as int
    }
}

/// The inputs on which every 8-bit step of the walking line stays in range.
pub open spec fn walking_bass_defined(chord: Seq<u8>, next_root: u8, seed: u64, minor: bool) -> bool {
    &&& chord.len() >= 1
    &&& 0 <= walking_beat2(chord, seed, minor) <= 255
    &&& walking_beat3(chord, seed, walking_beat2(chord, seed, minor)) <= 255
    &&& (seed % 100 < 50 ==> {
        &&& chromatic_try3(next_root, seed) <= 255
        &&& (chromatic_try3(next_root, seed) > MAX_NOTE ==> next_root >= 12)
    })
    &&& (50 <= seed % 100 < 68 ==> next_root + 7 <= 255)
}

/// The four notes of the walking line.
pub open spec fn spec_walking_bass(chord: Seq<u8>, next_root: u8, seed: u64, minor: bool) -> Seq<u8> {
    let b2 = walking_beat2(chord, seed, minor);
    seq![
        chord[0],
        b2 as u8,
        walking_beat3(chord, seed, b2) as u8,
        walking_beat4(chord, next_root, seed) as u8,
    ]
}

proof fn lemma_asc_values_contains(s: Seq<u8>, skip: int, n: nat, v: u8)
    requires
        v < n,
        s.contains(v),
        v != skip,
    ensures
        asc_values(s, skip, n).contains(v),
    decreases n,
{
    if v < n - 1 {
        lemma_asc_values_contains(s, skip, (n - 1) as nat, v);
        let prev = asc_values(s, skip, (n - 1) as nat);
        let i = choose|i: int| 0 <= i < prev.len() && prev[i] == v;
        if s.contains((n - 1) as u8) && (n - 1) != skip {
            assert(prev.push((n - 1) as u8)[i] == v);
        }
    } else {
        let prev = asc_values(s, skip, (n - 1) as nat);
        assert(prev.push(v)[prev.len() as int] == v);
    }
}

proof fn lemma_walking_tones_nonempty(chord: Seq<u8>)
    requires
        chord.len() >= 1,
    ensures
        walking_tones(chord).len() > 0,
{
    let ct = clamped_tones(chord);
    assert(ct.len() > 0);
    assert(ct.contains(ct[0]));
    lemma_asc_values_contains(ct, -1, 256, ct[0]);
}

fn vec_contains(s: &Vec<u8>, v: u8) -> (r: bool)
    ensures
        r == s@.contains(v),
{
    let mut i: usize = 0;
    while i < s.len()
        invariant
            i <= s@.len(),
            forall|k: int| 0 <= k < i ==> s@[k] != v,
        decreases s@.len() - i,
    {
        if s[i] == v {
            assert(s@[i as int] == v);
            return true;
        }
        i = i + 1;
    }
    false
}

/// Distinct values of `s` in increasing order, leaving out `skip` (when given).
fn ascending_values(s: &Vec<u8>, skip: Option<u8>) -> (r: Vec<u8>)
    ensures
        r@ == asc_values(s@, match skip { Some(x) => x as int, None => -1 }, 256),
{
    let ghost sk: int = match skip { Some(x) => x as int, None => -1 };
    let mut out: Vec<u8> = Vec::new();
    let mut v: u16 = 0;
    while v < 256
        invariant
            v <= 256,
            out@ == asc_values(s@, sk, v as nat),
            sk == match skip { Some(x) => x as int, None => -1 },
        decreases 256 - v,
    {
        let b = v as u8;
        let skipped = match skip {
            Some(x) => x == b,
            None => false,
        };
        if vec_contains(s, b) && !skipped {
            out.push(b);
        }
        v = v + 1;
    }
    out
}

fn clamp_chord_tones(chord_notes: &[u8]) -> (r: Vec<u8>)
    requires
        chord_notes@.len() >= 1,
    ensures
        r@ == clamped_tones(chord_notes@),
{
    let mut out: Vec<u8> = Vec::new();
    if chord_notes.len() > 1 {
        let mut i: usize = 1;
        while i < chord_notes.len()
            invariant
                1 <= i <= chord_notes@.len(),
                out@ == chord_notes@.subrange(1, i as int).map_values(|n: u8| spec_bass_clamp(n)),
            decreases chord_notes@.len() - i,
        {
            let c = bass_clamp(chord_notes[i]);
            out.push(c);
            proof {
                assert(chord_notes@.subrange(1, i + 1) == chord_notes@.subrange(1, i as int).push(chord_notes@[i as int]));
            }
            i = i + 1;
        }
    } else {
        let root = chord_notes[0];
        out.push(if root >= 5 { root - 5 } else { 0 });
        assert(out@ == seq![if root >= 5 { (root - 5) as u8 } else { 0u8 }]);
    }
    out
}

fn closest(t: &Vec<u8>, target: u8) -> (r: u8)
    requires
        t@.len() > 0,
    ensures
        r == closest_tone(t@, target),
{
    let mut best = t[0];
    let mut best_d: u8 = if best > target { best - target } else { target - best };
    let mut i: usize = 1;
    assert(t@.subrange(0, 1).len() == 1);
    while i < t.len()
        invariant
            1 <= i <= t@.len(),
            best == closest_tone(t@.subrange(0, i as int), target),
            best_d == note_dist(best, target),
        decreases t@.len() - i,
    {
        let x = t[i];
        let d: u8 = if x > target { x - target } else { target - x };
        proof {
            let sub = t@.subrange(0, i + 1);
            assert(sub.drop_last() == t@.subrange(0, i as int));
            assert(sub.last() == x);
        }
        if d < best_d {
            best = x;
            best_d = d;
        }
        i = i + 1;
    }
    assert(t@.subrange(0, t@.len() as int) == t@);
    best
}

/// Four walking-bass notes for a 4-beat bar: root, two chord tones from the
/// bass register, then an approach note towards `next_root`.
#[verifier::spinoff_prover]
#[verifier::rlimit(40)]
pub fn generate_walking_bass(chord_notes: &[u8], next_root: u8, seed: u64, minor: bool) -> (r: [u8; 4])
    requires
        walking_bass_defined(chord_notes@, next_root, seed, minor),
    ensures
        r@ == spec_walking_bass(chord_notes@, next_root, seed, minor),
        r@[0] == chord_notes@[0],
{
    let root = chord_notes[0];
    let chord_tones = clamp_chord_tones(chord_notes);
    let tones = ascending_values(&chord_tones, None);
    proof {
        lemma_walking_tones_nonempty(chord_notes@);
    }
    let b1 = root;
    let b2: u8 = if minor && seed % 100 < 25 {
        root + 2
    } else if minor && seed % 100 < 50 {
        root.wrapping_sub(10)
    } else {
        let idx2 = (seed as usize) % tones.len();
        tones[idx2]
    };
    assert(b2 as int == walking_beat2(chord_notes@, seed, minor));
    let filtered = ascending_values(&chord_tones, Some(b2));
    let b3: u8 = if filtered.len() == 0 {
        b2 + 7
    } else {
        filtered[(seed.wrapping_add(7) as usize) % filtered.len()]
    };
    let s = seed % 100;
    let b4: u8 = if s < 50 {
        let up = seed % 2 == 0;
        let mut app: u8 = if up { next_root.wrapping_add(1) } else { next_root.wrapping_sub(1) };
        if app < MIN_NOTE || app > MAX_NOTE {
            app = if up { next_root.wrapping_sub(1) } else { next_root.wrapping_add(1) };
        }
        if app < MIN_NOTE {
            app = next_root + 12;
        }
        if app > MAX_NOTE {
            app = next_root - 12;
        }
        app
    } else if s < 68 {
        let mut app = next_root + 7;
        if app > MAX_NOTE {
            app = app - 12;
        }
        app
    } else if s < 86 {
        let mut app = next_root.wrapping_sub(5);
        if app < MIN_NOTE {
            app = app + 12;
        }
        app
    } else {
        closest(&tones, next_root)
    };
    let r = [b1, b2, b3, b4];
    assert(r@ =~= spec_walking_bass(chord_notes@, next_root, seed, minor));
    r
}


/// `is_minor` on any chord: `None` on the chords where it is not defined
/// (a note more than an octave below the root, or too high to be lifted
/// by an octave).
pub fn is_minor_checked(midi_notes: &[u8]) -> (r: Option<bool>)
    ensures
        match r {
            Some(b) => is_minor_defined(midi_notes@) && b == spec_is_minor(midi_notes@),
            None => !is_minor_defined(midi_notes@),
        },
{
    if midi_notes.len() >= 2 {
        let root = midi_notes[0];
        let mut i: usize = 0;
        while i < midi_notes.len()
            invariant
                i <= midi_notes@.len(),
                midi_notes@.len() >= 2,
                root == midi_notes@[0],
                forall|k: int| 0 <= k < i && #[trigger] midi_notes@[k] < midi_notes@[0] ==> midi_notes@[k] + 12 <= 255
                    && midi_notes@[0] - midi_notes@[k] <= 12,
            decreases midi_notes@.len() - i,
        {
            let n = midi_notes[i];
            if n < root && (n > 243 || root - n > 12) {
                return None;
            }
            i = i + 1;
        }
    }
    Some(is_minor(midi_notes))
}

/// The walking line on any input: `None` on the inputs where an 8-bit step
/// of the line would leave the range of a MIDI byte.
#[verifier::spinoff_prover]
#[verifier::rlimit(40)]
pub fn walking_bass_checked(chord_notes: &[u8], next_root: u8, seed: u64, minor: bool) -> (r: Option<[u8; 4]>)
    ensures
        match r {
            Some(a) => walking_bass_defined(chord_notes@, next_root, seed, minor)
                && a@ == spec_walking_bass(chord_notes@, next_root, seed, minor),
            None => !walking_bass_defined(chord_notes@, next_root, seed, minor),
        },
{
    if chord_notes.len() == 0 {
        return None;
    }
    let root = chord_notes[0];
    if minor && seed % 100 < 25 && root > 253 {
        return None;
    }
    let chord_tones = clamp_chord_tones(chord_notes);
    let tones = ascending_values(&chord_tones, None);
    proof {
        lemma_walking_tones_nonempty(chord_notes@);
    }
    let b2: u8 = if minor && seed % 100 < 25 {
        root + 2
    } else if minor && seed % 100 < 50 {
        root.wrapping_sub(10)
    } else {
        let idx2 = (seed as usize) % tones.len();
        tones[idx2]
    };
    assert(b2 as int == walking_beat2(chord_notes@, seed, minor));
    let filtered = ascending_values(&chord_tones, Some(b2));
    if filtered.len() == 0 && b2 > 248 {
        return None;
    }
    let s = seed % 100;
    if s < 50 {
        let up = seed % 2 == 0;
        let mut app: u8 = if up { next_root.wrapping_add(1) } else { next_root.wrapping_sub(1) };
        if app < MIN_NOTE || app > MAX_NOTE {
            app = if up { next_root.wrapping_sub(1) } else { next_root.wrapping_add(1) };
        }
        assert(app == chromatic_try2(next_root, seed));
        if app < MIN_NOTE {
            if next_root > 243 {
                return None;
            }
            if next_root + 12 > MAX_NOTE && next_root < 12 {
                return None;
            }
        } else if app > MAX_NOTE && next_root < 12 {
            return None;
        }
    } else if s < 68 && next_root > 248 {
        return None;
    }
    Some(generate_walking_bass(chord_notes, next_root, seed, minor))
}

proof fn lemma_closest_tone(t: Seq<u8>, target: u8)
    requires
        t.len() > 0,
    ensures
        t.contains(closest_tone(t, target)),
        forall|k: int| 0 <= k < t.len() ==> note_dist(closest_tone(t, target), target) <= note_dist(#[trigger] t[k], target),
    decreases t.len(),
{
    if t.len() > 1 {
        let d = t.drop_last();
        lemma_closest_tone(d, target);
        let c = closest_tone(d, target);
        let j = choose|j: int| 0 <= j < d.len() && d[j] == c;
        assert(t[j] == c);
        assert(t[t.len() - 1] == t.last());
        assert forall|k: int| 0 <= k < t.len() implies note_dist(closest_tone(t, target), target) <= note_dist(#[trigger] t[k], target) by {
            if k < t.len() - 1 {
                assert(t[k] == d[k]);
            }
        }
    } else {
        assert(t[0] == closest_tone(t, target));
    }
}

/// Nearest-tone approach: on the seeds whose last hundredth is 86 or more,
/// the fourth note of the walking line is one of the chord's walking tones,
/// and no walking tone lies closer to the next root.
pub proof fn approach_is_the_nearest_tone(chord: Seq<u8>, next_root: u8, seed: u64, minor: bool)
    requires
        chord.len() >= 1,
        seed % 100 >= 86,
    ensures
        ({
            let w = spec_walking_bass(chord, next_root, seed, minor)[3];
            let t = walking_tones(chord);
            &&& t.contains(w)
            &&& forall|k: int| 0 <= k < t.len() ==> (if w > next_root { w - next_root } else { next_root - w }) <= (if #[trigger] t[k]
                > next_root { t[k] - next_root } else { next_root - t[k] })
        }),
{
    lemma_walking_tones_nonempty(chord);
    lemma_closest_tone(walking_tones(chord), next_root);
    let t = walking_tones(chord);
    assert forall|k: int| 0 <= k < t.len() implies note_dist(closest_tone(t, next_root), next_root) <= note_dist(#[trigger] t[k], next_root) by {
    }
}

/// The walking line starts on the root, and its approach of the next root
/// follows the seed: on the first half of the seeds a chromatic neighbour
/// (a semitone above or below, modulo 256) or the next root an octave away;
/// on the next 18 a fifth above it (or, above the register, a fourth below).
pub proof fn walking_line_starts_on_root_and_approaches(chord: Seq<u8>, next_root: u8, seed: u64, minor: bool)
    requires
        walking_bass_defined(chord, next_root, seed, minor),
    ensures
        ({
            let w = spec_walking_bass(chord, next_root, seed, minor);
            &&& w[0] == chord[0]
            &&& seed % 100 < 50 ==> w[3] == wrap8(next_root + 1) || w[3] == wrap8(next_root - 1) || w[3] == next_root + 12
                || w[3] == next_root - 12
            &&& 50 <= seed % 100 < 68 ==> w[3] == next_root + 7 || w[3] + 5 == next_root
        }),
{
}

} // verus!
