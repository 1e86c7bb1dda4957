//! Which MIDI port the server opens, chosen from the port names: the
//! pianist's Roland first, then FluidSynth, then the first port that is
//! neither the ALSA "Midi Through" nor a "System" port.
use vstd::prelude::*;
use crate::text::{chars_of, contains_seq, find_chars, occurs_at, str_lowercase, to_lowercase};
use crate::num::{parse_unsigned, parse_unsigned_chars};

verus! {

/// Index used when no port name helps (the usual FluidSynth client).
pub const FALLBACK_PORT: usize = 2;

/// The lowercased name contains `needle`.
pub open spec fn name_has(name: Seq<char>, needle: Seq<char>) -> bool {
    contains_seq(str_lowercase(name), needle)
}

/// A port worth opening: neither "Midi Through" nor "System" in its name.
pub open spec fn usable_port(name: Seq<char>) -> bool {
    !contains_seq(name, "Midi Through"@) && !contains_seq(name, "System"@)
}

/// Position of the first name containing `needle` once lowercased, or -1.
pub open spec fn first_named(names: Seq<Seq<char>>, needle: Seq<char>) -> int
    decreases names.len(),
{
    if names.len() == 0 {
        -1
    } else if first_named(names.drop_last(), needle) >= 0 {
        first_named(names.drop_last(), needle)
    } else if name_has(names.last(), needle) {
        names.len() - 1
    } else {
        -1
    }
}

/// Position of the first usable name, or -1.
pub open spec fn first_usable(names: Seq<Seq<char>>) -> int
    decreases names.len(),
{
    if names.len() == 0 {
        -1
    } else if first_usable(names.drop_last()) >= 0 {
        first_usable(names.drop_last())
    } else if usable_port(names.last()) {
        names.len() - 1
    } else {
        -1
    }
}

/// The output port: Roland, else FluidSynth, else the first usable port,
/// else `FALLBACK_PORT`.
pub open spec fn spec_output_port(names: Seq<Seq<char>>) -> int {
    if first_named(names, "roland"@) >= 0 {
        first_named(names, "roland"@)
    } else if first_named(names, "fluid"@) >= 0 {
        first_named(names, "fluid"@)
    } else if first_usable(names) >= 0 {
        first_usable(names)
    } else {
        FALLBACK_PORT as int
    }
}

/// The keyboard to listen to: Roland, else the first usable port.
pub open spec fn spec_input_port(names: Seq<Seq<char>>) -> int {
    if first_named(names, "roland"@) >= 0 {
        first_named(names, "roland"@)
    } else {
        first_usable(names)
    }
}

/// The views of a list of names.
pub open spec fn views(names: Seq<String>) -> Seq<Seq<char>> {
    names.map_values(|s: String| s@)
}

fn contains_text(hay: &Vec<char>, needle: &str) -> (r: bool)
    ensures
        r == contains_seq(hay@, needle@),
{
    let n = chars_of(needle);
    match find_chars(hay, &n) {
        Some(p) => {
            assert(occurs_at(hay@, needle@, p as int));
            true
        },
        None => false,
    }
}

/// Whether a port's name, lowercased, contains `needle`.
pub fn port_name_has(name: &str, needle: &str) -> (r: bool)
    ensures
        r == name_has(name@, needle@),
{
    let lower = to_lowercase(name);
    let v = chars_of(lower.as_str());
    contains_text(&v, needle)
}

fn is_usable(name: &str) -> (r: bool)
    ensures
        r == usable_port(name@),
{
    let v = chars_of(name);
    !contains_text(&v, "Midi Through") && !contains_text(&v, "System")
}

proof fn lemma_views_prefix(names: Seq<String>, i: int)
    requires
        0 <= i < names.len(),
    ensures
        views(names.subrange(0, i + 1)).drop_last() == views(names.subrange(0, i)),
        views(names.subrange(0, i + 1)).last() == names[i]@,
{
    assert(views(names.subrange(0, i + 1)).drop_last() =~= views(names.subrange(0, i)));
}

fn find_named(names: &[String], needle: &str) -> (r: Option<usize>)
    ensures
        match r {
            Some(i) => first_named(views(names@), needle@) == i as int,
            None => first_named(views(names@), needle@) == -1,
        },
{
    let mut i: usize = 0;
    while i < names.len()
        invariant
            i <= names@.len(),
            first_named(views(names@.subrange(0, i as int)), needle@) == -1,
        decreases names@.len() - i,
    {
        proof {
            lemma_views_prefix(names@, i as int);
        }
        if port_name_has(names[i].as_str(), needle) {
            proof {
                lemma_first_named_extends(names@, i as int + 1, needle@);
            }
            return Some(i);
        }
        i = i + 1;
    }
    assert(names@.subrange(0, names@.len() as int) =~= names@);
    None
}

/// A position found in a prefix stays the first one in the whole list.
proof fn lemma_first_named_extends(names: Seq<String>, k: int, needle: Seq<char>)
    requires
        0 <= k <= names.len(),
        first_named(views(names.subrange(0, k)), needle) >= 0,
    ensures
        first_named(views(names), needle) == first_named(views(names.subrange(0, k)), needle),
    decreases names.len() - k,
{
    if k < names.len() {
        lemma_views_prefix(names, k);
        lemma_first_named_extends(names, k + 1, needle);
    } else {
        assert(names.subrange(0, k) =~= names);
    }
}

proof fn lemma_first_usable_extends(names: Seq<String>, k: int)
    requires
        0 <= k <= names.len(),
        first_usable(views(names.subrange(0, k))) >= 0,
    ensures
        first_usable(views(names)) == first_usable(views(names.subrange(0, k))),
    decreases names.len() - k,
{
    if k < names.len() {
        lemma_views_prefix(names, k);
        lemma_first_usable_extends(names, k + 1);
    } else {
        assert(names.subrange(0, k) =~= names);
    }
}

fn find_usable(names: &[String]) -> (r: Option<usize>)
    ensures
        match r {
            Some(i) => first_usable(views(names@)) == i as int,
            None => first_usable(views(names@)) == -1,
        },
{
    let mut i: usize = 0;
    while i < names.len()
        invariant
            i <= names@.len(),
            first_usable(views(names@.subrange(0, i as int))) == -1,
        decreases names@.len() - i,
    {
        proof {
            lemma_views_prefix(names@, i as int);
        }
        if is_usable(names[i].as_str()) {
            proof {
                lemma_first_usable_extends(names@, i as int + 1);
            }
            return Some(i);
        }
        i = i + 1;
    }
    assert(names@.subrange(0, names@.len() as int) =~= names@);
    None
}

/// The output port to open among `names` (see `spec_output_port`).
pub fn choose_output_port(names: &[String]) -> (r: usize)
    ensures
        r as int == spec_output_port(views(names@)),
{
    match find_named(names, "roland") {
        Some(i) => i,
        None => match find_named(names, "fluid") {
            Some(i) => i,
            None => match find_usable(names) {
                Some(i) => i,
                None => FALLBACK_PORT,
            },
        },
    }
}

/// The keyboard port to listen to among `names`, if any.
pub fn choose_input_port(names: &[String]) -> (r: Option<usize>)
    ensures
        match r {
            Some(i) => i as int == spec_input_port(views(names@)),
            None => spec_input_port(views(names@)) == -1,
        },
{
    match find_named(names, "roland") {
        Some(i) => Some(i),
        None => find_usable(names),
    }
}

/// The port index forced by the `MIDI_PORT` setting: the value read as an
/// index (`str::parse::<usize>`), `FALLBACK_PORT` when it does not parse.
pub fn port_from_setting(value: &str) -> (r: usize)
    ensures
        r as int == (match parse_unsigned(value@, usize::MAX as nat) {
            Some(i) => i as int,
            None => FALLBACK_PORT as int,
        }),
{
    let v = chars_of(value);
    match parse_unsigned_chars(&v, usize::MAX as u64) {
        Some(i) => i as usize,
        None => FALLBACK_PORT,
    }
}

} // verus!
