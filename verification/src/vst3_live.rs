//! Live VST3 monitoring: the XML state inside a Surge `.fxp` preset, the
//! choice of a preset by path or by partial name, and the conversion of
//! raw MIDI messages into plugin events.
use vstd::prelude::*;
use crate::text::{chars_of, owned, to_lowercase, str_lowercase, occurs_at, contains_seq, find_chars};

verus! {

/// Sample rate of the live engine (the only one the keyboard accepts over USB).
pub const LIVE_RATE: u32 = 44_100;
/// Buffer size of the live engine, in frames.
pub const LIVE_BUFFER: usize = 256;

/// A Surge preset: display name, absolute path, category (first-level folder).
#[derive(Clone, Debug)]
pub struct PresetInfo {
    pub name: String,
    pub path: String,
    pub category: String,
}

/// The marker that opens the XML state: `<?xml`.
pub open spec fn xml_marker() -> Seq<u8> {
    seq![0x3Cu8, 0x3Fu8, 0x78u8, 0x6Du8, 0x6Cu8]
}

/// The bytes from the first `<?xml` to the end, if the marker occurs.
pub open spec fn spec_extract_xml_state(data: Seq<u8>) -> Option<Seq<u8>> {
    if contains_seq(data, xml_marker()) {
        let p = choose|p: int| occurs_at(data, xml_marker(), p) && forall|j: int| 0 <= j < p ==> !occurs_at(data, xml_marker(), j);
        Some(data.subrange(p, data.len() as int))
    } else {
        None
    }
}

/// The XML state of a Surge `.fxp` (binary header, then XML): everything
/// from the first `<?xml`; `None` without the marker.
pub fn extract_xml_state(data: &[u8]) -> (r: Option<&[u8]>)
    ensures
        match r {
            Some(x) => spec_extract_xml_state(data@) == Some(x@),
            None => spec_extract_xml_state(data@) is None,
        },
{
    let marker: [u8; 5] = [0x3Cu8, 0x3Fu8, 0x78u8, 0x6Du8, 0x6Cu8];
    let n = data.len();
    if n < 5 {
        proof {
            if contains_seq(data@, xml_marker()) {
                let p = choose|p: int| occurs_at(data@, xml_marker(), p);
                assert(p + 5 <= n);
            }
        }
        return None;
    }
    let mut i: usize = 0;
    while i <= n - 5
        invariant
            n == data@.len(),
            n >= 5,
            i <= n - 4,
            forall|j: int| 0 <= j < i ==> !occurs_at(data@, xml_marker(), j),
        decreases n - i,
    {
        if data[i] == 0x3C && data[i + 1] == 0x3F && data[i + 2] == 0x78 && data[i + 3] == 0x6D && data[i + 4] == 0x6C {
            assert(data@.subrange(i as int, i + 5) =~= xml_marker());
            proof {
                let q = choose|p: int| occurs_at(data@, xml_marker(), p) && forall|j: int| 0 <= j < p ==> !occurs_at(data@, xml_marker(), j);
                assert(occurs_at(data@, xml_marker(), i as int));
                if q < i {
                } else if q > i {
                }
                assert(q == i);
            }
            return Some(vstd::slice::slice_subrange(data, i, n));
        }
        proof {
            if occurs_at(data@, xml_marker(), i as int) {
                let s = data@.subrange(i as int, i + 5);
                assert(s[0] == data@[i as int]);
                assert(s[1] == data@[i + 1]);
                assert(s[2] == data@[i + 2]);
                assert(s[3] == data@[i + 3]);
                assert(s[4] == data@[i + 4]);
            }
        }
        i = i + 1;
    }
    proof {
        if contains_seq(data@, xml_marker()) {
            let p = choose|p: int| occurs_at(data@, xml_marker(), p);
            assert(p + 5 <= n);
        }
    }
    None
}

/// The file stem of a path (`Path::file_stem`, lossily decoded, empty when
/// there is none).
pub uninterp spec fn path_file_stem(p: Seq<char>) -> Seq<char>;

/// `Path::file_stem` of a path given as text, lossily decoded, empty when
/// the path has no file name. Contract: the result is the named stem of
/// the argument; the path rules themselves are left to the name.
#[verifier::external_body]
fn file_stem(p: &str) -> (r: String)
    ensures
        r@ == path_file_stem(p@),
{
    std::path::Path::new(p).file_stem().unwrap_or_default().to_string_lossy().into_owned()
}

/// A preset whose lowercased name contains the lowercased query.
pub open spec fn name_matches(name: Seq<char>, query: Seq<char>) -> bool {
    contains_seq(str_lowercase(name), str_lowercase(query))
}

/// The first preset matching the query, as (path, name).
pub open spec fn first_preset_match(presets: Seq<PresetInfo>, query: Seq<char>) -> Option<(Seq<char>, Seq<char>)>
    decreases presets.len(),
{
    if presets.len() == 0 {
        None
    } else if name_matches(presets[0].name@, query) {
        Some((presets[0].path@, presets[0].name@))
    } else {
        first_preset_match(presets.drop_first(), query)
    }
}

/// Error for a preset found neither as a path nor by name.
pub open spec fn preset_not_found(arg: Seq<char>, root: Seq<char>) -> Seq<char> {
    "Preset « "@ + arg + " » introuvable dans "@ + root
}

/// Preset chosen for `arg`: the file itself when `arg` is an existing path
/// (name: its stem), otherwise the first preset of the list whose name
/// contains `arg` (case-insensitive), otherwise an error naming the folder.
pub open spec fn spec_resolve_preset(arg: Seq<char>, arg_exists: bool, presets: Seq<PresetInfo>, root: Seq<char>) -> Result<(Seq<char>, Seq<char>), Seq<char>> {
    if arg_exists {
        Ok((arg, path_file_stem(arg)))
    } else {
        match first_preset_match(presets, arg) {
            Some(m) => Ok(m),
            None => Err(preset_not_found(arg, root)),
        }
    }
}

/// A resolved preset resolves to itself: the path it gives names an
/// existing file, and resolving that path gives the same path back, named
/// by its file stem.
pub proof fn resolved_preset_resolves_to_itself(arg: Seq<char>, arg_exists: bool, presets: Seq<PresetInfo>, root: Seq<char>)
    ensures
        match spec_resolve_preset(arg, arg_exists, presets, root) {
            Ok((p, _n)) => spec_resolve_preset(p, true, presets, root) == Ok::<(Seq<char>, Seq<char>), Seq<char>>((p, path_file_stem(p))),
            Err(_) => true,
        },
{
}

/// Resolves a preset argument. `arg_exists` tells whether `arg` names an
/// existing file; `presets` is the factory list; `root` is its folder.
pub fn resolve_preset(arg: &str, arg_exists: bool, presets: &[PresetInfo], root: &str) -> (r: Result<(String, String), String>)
    ensures
        match r {
            Ok((p, n)) => spec_resolve_preset(arg@, arg_exists, presets@, root@) == Ok::<(Seq<char>, Seq<char>), Seq<char>>((p@, n@)),
            Err(m) => spec_resolve_preset(arg@, arg_exists, presets@, root@) == Err::<(Seq<char>, Seq<char>), Seq<char>>(m@),
        },
{
    if arg_exists {
        return Ok((owned(arg), file_stem(arg)));
    }
    let lower = to_lowercase(arg);
    let q = chars_of(lower.as_str());
    let mut i: usize = 0;
    assert(presets@.subrange(0, presets@.len() as int) =~= presets@);
    while i < presets.len()
        invariant
            !arg_exists,
            q@ == str_lowercase(arg@),
            i <= presets@.len(),
            first_preset_match(presets@, arg@) == first_preset_match(presets@.subrange(i as int, presets@.len() as int), arg@),
        decreases presets@.len() - i,
    {
        let ghost rest = presets@.subrange(i as int, presets@.len() as int);
        proof {
            assert(rest.drop_first() =~= presets@.subrange(i + 1, presets@.len() as int));
            assert(rest[0] == presets@[i as int]);
        }
        let nl = to_lowercase(presets[i].name.as_str());
        let nv = chars_of(nl.as_str());
        match find_chars(&nv, &q) {
            Some(pos) => {
                proof {
                    assert(occurs_at(str_lowercase(rest[0].name@), str_lowercase(arg@), pos as int));
                    assert(name_matches(rest[0].name@, arg@));
                }
                return Ok((owned(presets[i].path.as_str()), owned(presets[i].name.as_str())));
            },
            None => {},
        }
        i = i + 1;
    }
    let mut m = owned("Preset « ");
    m.append(arg);
    m.append(" » introuvable dans ");
    m.append(root);
    Err(m)
}

/// A MIDI message as the plugin receives it (channel index 0-15).
#[derive(Clone, Copy, Debug, PartialEq, Eq, Structural)]
#[allow(inconsistent_fields)]
pub enum LiveMidiEvent {
    NoteOn { channel: u8, note: u8, velocity: u8 },
    NoteOff { channel: u8, note: u8, velocity: u8 },
    ControlChange { channel: u8, controller: u8, value: u8 },
    ProgramChange { channel: u8, program: u8 },
    PitchBend { channel: u8, value: u16 },
}

/// Byte `i` of a message, or `d` when the message is shorter.
pub open spec fn byte_or(msg: Seq<u8>, i: int, d: u8) -> u8 {
    if i < msg.len() { msg[i] } else { d }
}

/// Plugin event of a raw message: note-on (a velocity of 0, or none, makes
/// it a note-off), note-off, control change, program change and 14-bit
/// pitch bend (`lsb | msb << 7`); other messages and messages shorter than
/// two bytes give nothing.
pub open spec fn spec_midi_to_vst3_event(msg: Seq<u8>) -> Option<LiveMidiEvent> {
    if msg.len() < 2 {
        None
    } else {
        let ch = msg[0] & 0x0F;
        let k = msg[0] & 0xF0;
        if k == 0x90 {
            if byte_or(msg, 2, 0) > 0 {
                Some(LiveMidiEvent::NoteOn { channel: ch, note: msg[1], velocity: msg[2] })
            } else {
                Some(LiveMidiEvent::NoteOff { channel: ch, note: msg[1], velocity: 0 })
            }
        } else if k == 0x80 {
            Some(LiveMidiEvent::NoteOff { channel: ch, note: msg[1], velocity: byte_or(msg, 2, 0) })
        } else if k == 0xB0 {
            Some(LiveMidiEvent::ControlChange { channel: ch, controller: msg[1], value: byte_or(msg, 2, 0) })
        } else if k == 0xC0 {
            Some(LiveMidiEvent::ProgramChange { channel: ch, program: msg[1] })
        } else if k == 0xE0 {
            Some(LiveMidiEvent::PitchBend { channel: ch, value: (msg[1] as u16) | ((byte_or(msg, 2, 0) as u16) << 7) })
        } else {
            None
        }
    }
}

/// Converts a raw MIDI message into a plugin event.
pub fn midi_to_vst3_event(msg: &[u8]) -> (r: Option<LiveMidiEvent>)
    ensures
        r == spec_midi_to_vst3_event(msg@),
{
    if msg.len() < 2 {
        return None;
    }
    let status = msg[0];
    let ch = status & 0x0F;
    let third: u8 = if msg.len() > 2 { msg[2] } else { 0 };
    let k = status & 0xF0;
    if k == 0x90 {
        if third > 0 {
            Some(LiveMidiEvent::NoteOn { channel: ch, note: msg[1], velocity: third })
        } else {
            Some(LiveMidiEvent::NoteOff { channel: ch, note: msg[1], velocity: 0 })
        }
    } else if k == 0x80 {
        Some(LiveMidiEvent::NoteOff { channel: ch, note: msg[1], velocity: third })
    } else if k == 0xB0 {
        Some(LiveMidiEvent::ControlChange { channel: ch, controller: msg[1], value: third })
    } else if k == 0xC0 {
        Some(LiveMidiEvent::ProgramChange { channel: ch, program: msg[1] })
    } else if k == 0xE0 {
        let lsb = msg[1] as u16;
        let msb = third as u16;
        Some(LiveMidiEvent::PitchBend { channel: ch, value: lsb | (msb << 7) })
    } else {
        None
    }
}

} // verus!
