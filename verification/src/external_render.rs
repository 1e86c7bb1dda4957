//! External rendering: finding the ALSA capture card that records the sound
//! of the MIDI device in use, from `/proc/asound/cards` and the port name.
use vstd::prelude::*;
use crate::text::{chars_of, copy_range, string_from_chars, chars_eq, trim_chars, spec_trim, to_lowercase,
    str_lowercase, is_alphanumeric, char_is_alphanumeric, occurs_at, contains_seq, find_chars};
use crate::num::{is_digit, all_digits};
use crate::render::{first_index_of, find_char};

verus! {

/// An ALSA card: its number and its description.
#[derive(Clone, Debug)]
pub struct CaptureCard {
    pub id: String,
    pub desc: String,
}

/// A card as plain character sequences (id, description).
pub open spec fn card_view(c: CaptureCard) -> (Seq<char>, Seq<char>) {
    (c.id@, c.desc@)
}

/// The cards as plain values, in order.
pub open spec fn cards_view(s: Seq<CaptureCard>) -> Seq<(Seq<char>, Seq<char>)> {
    s.map_values(|c: CaptureCard| card_view(c))
}

/// The pieces of `s` between occurrences of `sep` (`str::split`): always at
/// least one piece.
pub open spec fn split_on(s: Seq<char>, sep: char) -> Seq<Seq<char>>
    decreases s.len(),
{
    if s.len() == 0 {
        seq![Seq::empty()]
    } else {
        let r = split_on(s.drop_last(), sep);
        if s.last() == sep {
            r.push(Seq::empty())
        } else {
            r.drop_last().push(r.last().push(s.last()))
        }
    }
}

proof fn lemma_split_on_len(s: Seq<char>, sep: char)
    ensures
        split_on(s, sep).len() >= 1,
    decreases s.len(),
{
    if s.len() > 0 {
        lemma_split_on_len(s.drop_last(), sep);
    }
}

/// The separator `]: ` between a card's bracketed name and its description.
pub open spec fn desc_sep() -> Seq<char> {
    seq![']', ':', ' ']
}

/// The description of a card line: the trimmed text after the first `]: `,
/// empty when there is none.
pub open spec fn card_desc(t: Seq<char>) -> Seq<char> {
    if contains_seq(t, desc_sep()) {
        let i = choose|i: int| occurs_at(t, desc_sep(), i) && forall|j: int| 0 <= j < i ==> !occurs_at(t, desc_sep(), j);
        spec_trim(t.subrange(i + 3, t.len() as int))
    } else {
        Seq::empty()
    }
}

/// One line of `/proc/asound/cards` (` 3 [Piano ]: USB-Audio - Roland`):
/// the trimmed text before the first `[` must be a non-empty run of ASCII
/// digits (the id), and the description after `]: ` must not be empty.
pub open spec fn parse_card_line(line: Seq<char>) -> Option<(Seq<char>, Seq<char>)> {
    let t = spec_trim(line);
    let k = first_index_of(t, '[');
    let id = spec_trim(if k < 0 { t } else { t.subrange(0, k) });
    let desc = card_desc(t);
    if t.len() == 0 || id.len() == 0 || !all_digits(id) || desc.len() == 0 {
        None
    } else {
        Some((id, desc))
    }
}

/// The cards described by a sequence of lines, in order.
pub open spec fn cards_of_lines(lines: Seq<Seq<char>>) -> Seq<(Seq<char>, Seq<char>)>
    decreases lines.len(),
{
    if lines.len() == 0 {
        Seq::empty()
    } else {
        let r = cards_of_lines(lines.drop_last());
        match parse_card_line(lines.last()) {
            Some(c) => r.push(c),
            None => r,
        }
    }
}

/// A well-formed card: a non-empty run of ASCII digits as id, and a
/// non-empty description.
pub open spec fn card_ok(c: (Seq<char>, Seq<char>)) -> bool {
    c.0.len() > 0 && all_digits(c.0) && c.1.len() > 0
}

/// Every card read from lines is well formed.
pub proof fn cards_of_lines_ok(lines: Seq<Seq<char>>)
    ensures
        forall|k: int| 0 <= k < cards_of_lines(lines).len() ==> card_ok(#[trigger] cards_of_lines(lines)[k]),
    decreases lines.len(),
{
    if lines.len() > 0 {
        let d = lines.drop_last();
        cards_of_lines_ok(d);
        let r = cards_of_lines(d);
        match parse_card_line(lines.last()) {
            Some(c) => {
                assert(cards_of_lines(lines) == r.push(c));
                assert forall|k: int| 0 <= k < cards_of_lines(lines).len() implies card_ok(#[trigger] cards_of_lines(lines)[k]) by {
                    if k < r.len() {
                        assert(cards_of_lines(lines)[k] == r[k]);
                    }
                }
            },
            None => {
                assert(cards_of_lines(lines) == r);
            },
        }
    }
}

/// The cards listed in the text of `/proc/asound/cards`; malformed lines
/// are skipped.
pub open spec fn spec_parse_cards(text: Seq<char>) -> Seq<(Seq<char>, Seq<char>)> {
    cards_of_lines(split_on(text, '\n'))
}

fn all_ascii_digits(v: &Vec<char>) -> (r: bool)
    ensures
        r == all_digits(v@),
{
    let mut i: usize = 0;
    while i < v.len()
        invariant
            i <= v@.len(),
            forall|k: int| 0 <= k < i ==> is_digit(v@[k]),
        decreases v@.len() - i,
    {
        if !('0' <= v[i] && v[i] <= '9') {
            return false;
        }
        i = i + 1;
    }
    true
}


/// Parses one card line.
fn parse_card_line_exec(line: &Vec<char>) -> (r: Option<CaptureCard>)
    ensures
        match r {
            Some(c) => parse_card_line(line@) == Some(card_view(c)),
            None => parse_card_line(line@) is None,
        },
{
    let t = trim_chars(line);
    if t.len() == 0 {
        return None;
    }
    let before = match find_char(&t, '[') {
        Some(k) => copy_range(&t, 0, k),
        None => copy_range(&t, 0, t.len()),
    };
    proof {
        if first_index_of(t@, '[') < 0 {
            assert(t@.subrange(0, t@.len() as int) =~= t@);
        }
    }
    let id = trim_chars(&before);
    if id.len() == 0 || !all_ascii_digits(&id) {
        return None;
    }
    let sep: Vec<char> = vec![']', ':', ' '];
    assert(sep@ =~= desc_sep());
    let desc = match find_chars(&t, &sep) {
        Some(p) => {
            proof {
                let q = choose|i: int| occurs_at(t@, desc_sep(), i) && forall|j: int| 0 <= j < i ==> !occurs_at(t@, desc_sep(), j);
                assert(occurs_at(t@, desc_sep(), p as int));
                if q < p {
                } else if q > p {
                }
                assert(q == p);
            }
            let rest = copy_range(&t, p + 3, t.len());
            trim_chars(&rest)
        },
        None => Vec::new(),
    };
    if desc.len() == 0 {
        return None;
    }
    let card = CaptureCard { id: string_from_chars(id.as_slice()), desc: string_from_chars(desc.as_slice()) };
    Some(card)
}

/// Parses the text of `/proc/asound/cards`: one card per well-formed line.
pub fn parse_cards(text: &str) -> (r: Vec<CaptureCard>)
    ensures
        cards_view(r@) == spec_parse_cards(text@),
        forall|k: int| 0 <= k < r@.len() ==> card_ok(card_view(#[trigger] r@[k])),
{
    proof {
        cards_of_lines_ok(split_on(text@, '\n'));
    }
    let v = chars_of(text);
    let mut out: Vec<CaptureCard> = Vec::new();
    let mut cur: Vec<char> = Vec::new();
    let mut i: usize = 0;
    proof {
        assert(v@.subrange(0, 0) =~= Seq::<char>::empty());
    }
    while i < v.len()
        invariant
            v@ == text@,
            i <= v@.len(),
            split_on(v@.subrange(0, i as int), '\n').len() >= 1,
            cur@ == split_on(v@.subrange(0, i as int), '\n').last(),
            cards_view(out@) == cards_of_lines(split_on(v@.subrange(0, i as int), '\n').drop_last()),
        decreases v@.len() - i,
    {
        let c = v[i];
        let ghost pre = v@.subrange(0, i as int);
        let ghost next = v@.subrange(0, i + 1);
        proof {
            assert(next.drop_last() =~= pre);
            assert(next.last() == c);
            lemma_split_on_len(pre, '\n');
        }
        if c == '\n' {
            let parsed = parse_card_line_exec(&cur);
            proof {
                let lines = split_on(pre, '\n');
                assert(split_on(next, '\n').drop_last() =~= lines);
                assert(lines.drop_last().push(lines.last()) =~= lines);
            }
            match parsed {
                Some(card) => {
                    out.push(card);
                },
                None => {},
            }
            proof {
                assert(cards_view(out@) =~= cards_of_lines(split_on(next, '\n').drop_last()));
            }
            cur = Vec::new();
        } else {
            cur.push(c);
            proof {
                let lines = split_on(pre, '\n');
                assert(split_on(next, '\n').drop_last() =~= lines.drop_last());
            }
        }
        i = i + 1;
    }
    assert(v@.subrange(0, v@.len() as int) =~= v@);
    let parsed = parse_card_line_exec(&cur);
    proof {
        let lines = split_on(v@, '\n');
        assert(lines.drop_last().push(lines.last()) =~= lines);
    }
    match parsed {
        Some(card) => {
            out.push(card);
        },
        None => {},
    }
    proof {
        assert(cards_view(out@) =~= spec_parse_cards(text@));
        assert forall|k: int| 0 <= k < out@.len() implies card_ok(card_view(#[trigger] out@[k])) by {
            assert(cards_view(out@)[k] == card_view(out@[k]));
        }
    }
    out
}

/// Bytes taken by a character in UTF-8.
pub open spec fn char_utf8_len(c: char) -> nat {
    if (c as u32) < 0x80 {
        1
    } else if (c as u32) < 0x800 {
        2
    } else if (c as u32) < 0x10000 {
        3
    } else {
        4
    }
}

/// Bytes taken by a character sequence in UTF-8 (`str::len`).
pub open spec fn utf8_len(s: Seq<char>) -> nat
    decreases s.len(),
{
    if s.len() == 0 { 0 } else { utf8_len(s.drop_last()) + char_utf8_len(s.last()) }
}

/// Words too generic to tell two devices apart.
pub open spec fn stop_word(w: Seq<char>) -> bool {
    ||| w == "midi"@
    ||| w == "port"@
    ||| w == "through"@
    ||| w == "synth"@
    ||| w == "input"@
    ||| w == "output"@
    ||| w == "usb"@
    ||| w == "audio"@
    ||| w == "device"@
    ||| w == "card"@
    ||| w == "generic"@
    ||| w == "hd"@
    ||| w == "hda"@
    ||| w == "intel"@
}

/// A word that counts for matching: at least three bytes, not generic.
pub open spec fn significant(w: Seq<char>) -> bool {
    utf8_len(w) >= 3 && !stop_word(w)
}

/// The pieces of `s` between characters outside the alphanumeric class.
pub open spec fn split_words(s: Seq<char>) -> Seq<Seq<char>>
    decreases s.len(),
{
    if s.len() == 0 {
        seq![Seq::empty()]
    } else {
        let r = split_words(s.drop_last());
        if !char_is_alphanumeric(s.last()) {
            r.push(Seq::empty())
        } else {
            r.drop_last().push(r.last().push(s.last()))
        }
    }
}

proof fn lemma_split_words_len(s: Seq<char>)
    ensures
        split_words(s).len() >= 1,
    decreases s.len(),
{
    if s.len() > 0 {
        lemma_split_words_len(s.drop_last());
    }
}

/// The distinct significant words of a list, in order of first appearance.
pub open spec fn distinct_significant(words: Seq<Seq<char>>) -> Seq<Seq<char>>
    decreases words.len(),
{
    if words.len() == 0 {
        Seq::empty()
    } else {
        let r = distinct_significant(words.drop_last());
        if significant(words.last()) && !r.contains(words.last()) { r.push(words.last()) } else { r }
    }
}

/// The significant words of a port or card name: lowercased, split at every
/// character that is not alphanumeric, generic and short words dropped,
/// each word once.
pub open spec fn spec_significant_words(s: Seq<char>) -> Seq<Seq<char>> {
    distinct_significant(split_words(str_lowercase(s)))
}

/// The character views of a list of words.
pub open spec fn words_view(v: Seq<Vec<char>>) -> Seq<Seq<char>> {
    v.map_values(|w: Vec<char>| w@)
}

fn long_enough(w: &Vec<char>) -> (r: bool)
    ensures
        r == (utf8_len(w@) >= 3),
{
    let mut acc: u64 = 0;
    let mut i: usize = 0;
    while i < w.len()
        invariant
            i <= w@.len(),
            acc == if utf8_len(w@.subrange(0, i as int)) >= 3 { 3 } else { utf8_len(w@.subrange(0, i as int)) },
        decreases w@.len() - i,
    {
        let c = w[i];
        let n: u64 = if (c as u32) < 0x80 { 1 } else if (c as u32) < 0x800 { 2 } else if (c as u32) < 0x10000 { 3 } else { 4 };
        proof {
            assert(w@.subrange(0, i + 1).drop_last() =~= w@.subrange(0, i as int));
        }
        acc = if acc + n >= 3 { 3 } else { acc + n };
        i = i + 1;
    }
    assert(w@.subrange(0, w@.len() as int) =~= w@);
    acc >= 3
}

fn is_word(w: &Vec<char>, lit: &str) -> (r: bool)
    ensures
        r == (w@ == lit@),
{
    let l = chars_of(lit);
    chars_eq(w, &l)
}

fn is_stop_word(w: &Vec<char>) -> (r: bool)
    ensures
        r == stop_word(w@),
{
    is_word(w, "midi") || is_word(w, "port") || is_word(w, "through") || is_word(w, "synth")
        || is_word(w, "input") || is_word(w, "output") || is_word(w, "usb") || is_word(w, "audio")
        || is_word(w, "device") || is_word(w, "card") || is_word(w, "generic") || is_word(w, "hd")
        || is_word(w, "hda") || is_word(w, "intel")
}

fn contains_word(v: &Vec<Vec<char>>, w: &Vec<char>) -> (r: bool)
    ensures
        r == words_view(v@).contains(w@),
{
    let mut i: usize = 0;
    while i < v.len()
        invariant
            i <= v@.len(),
            forall|k: int| 0 <= k < i ==> v@[k]@ != w@,
        decreases v@.len() - i,
    {
        if chars_eq(&v[i], w) {
            assert(words_view(v@)[i as int] == w@);
            return true;
        }
        i = i + 1;
    }
    proof {
        if words_view(v@).contains(w@) {
            let k = choose|k: int| 0 <= k < words_view(v@).len() && words_view(v@)[k] == w@;
            assert(v@[k]@ == w@);
        }
    }
    false
}

/// Adds a finished word when it is significant and new.
fn keep_word(out: &mut Vec<Vec<char>>, w: Vec<char>)
    ensures
        words_view(final(out)@) == (if significant(w@) && !words_view(old(out)@).contains(w@) {
            words_view(old(out)@).push(w@)
        } else {
            words_view(old(out)@)
        }),
{
    if long_enough(&w) && !is_stop_word(&w) && !contains_word(out, &w) {
        let ghost before = out@;
        out.push(w);
        assert(words_view(out@) =~= words_view(before).push(w@));
    }
}

/// The significant words of a name, each once, in order of appearance.
fn significant_words(s: &str) -> (r: Vec<Vec<char>>)
    ensures
        words_view(r@) == spec_significant_words(s@),
{
    let lower = to_lowercase(s);
    let v = chars_of(lower.as_str());
    let mut out: Vec<Vec<char>> = Vec::new();
    let mut cur: Vec<char> = Vec::new();
    let mut i: usize = 0;
    proof {
        assert(v@.subrange(0, 0) =~= Seq::<char>::empty());
    }
    while i < v.len()
        invariant
            v@ == str_lowercase(s@),
            i <= v@.len(),
            split_words(v@.subrange(0, i as int)).len() >= 1,
            cur@ == split_words(v@.subrange(0, i as int)).last(),
            words_view(out@) == distinct_significant(split_words(v@.subrange(0, i as int)).drop_last()),
        decreases v@.len() - i,
    {
        let c = v[i];
        let ghost pre = v@.subrange(0, i as int);
        let ghost next = v@.subrange(0, i + 1);
        proof {
            assert(next.drop_last() =~= pre);
            assert(next.last() == c);
            lemma_split_words_len(pre);
        }
        if !is_alphanumeric(c) {
            let w = cur;
            keep_word(&mut out, w);
            proof {
                let words = split_words(pre);
                assert(split_words(next).drop_last() =~= words);
                assert(words.drop_last().push(words.last()) =~= words);
            }
            cur = Vec::new();
        } else {
            cur.push(c);
            proof {
                let words = split_words(pre);
                assert(split_words(next).drop_last() =~= words.drop_last());
            }
        }
        i = i + 1;
    }
    assert(v@.subrange(0, v@.len() as int) =~= v@);
    proof {
        let words = split_words(v@);
        assert(words.drop_last().push(words.last()) =~= words);
    }
    keep_word(&mut out, cur);
    out
}

/// How many words of `a` also occur in `b`.
pub open spec fn common_count(a: Seq<Seq<char>>, b: Seq<Seq<char>>) -> nat
    decreases a.len(),
{
    if a.len() == 0 {
        0
    } else {
        common_count(a.drop_last(), b) + if b.contains(a.last()) { 1nat } else { 0nat }
    }
}

/// The ALSA device of a card: `hw:<id>,0`.
pub open spec fn hw_device(id: Seq<char>) -> Seq<char> {
    seq!['h', 'w', ':'] + id + seq![',', '0']
}

/// The device of the first card sharing at least two significant words
/// with the port.
pub open spec fn first_matching_card(port_words: Seq<Seq<char>>, cards: Seq<(Seq<char>, Seq<char>)>) -> Option<Seq<char>>
    decreases cards.len(),
{
    if cards.len() == 0 {
        None
    } else if common_count(port_words, spec_significant_words(cards[0].1)) >= 2 {
        Some(hw_device(cards[0].0))
    } else {
        first_matching_card(port_words, cards.drop_first())
    }
}

/// Capture device for a MIDI port: none when the port name has no
/// significant word, otherwise the first card sharing two of them.
pub open spec fn spec_find_capture_device(port: Seq<char>, cards: Seq<(Seq<char>, Seq<char>)>) -> Option<Seq<char>> {
    let pw = spec_significant_words(port);
    if pw.len() == 0 { None } else { first_matching_card(pw, cards) }
}

fn count_common(a: &Vec<Vec<char>>, b: &Vec<Vec<char>>) -> (r: u64)
    ensures
        r == common_count(words_view(a@), words_view(b@)),
{
    let mut n: u64 = 0;
    let mut i: usize = 0;
    while i < a.len()
        invariant
            i <= a@.len(),
            n == common_count(words_view(a@).subrange(0, i as int), words_view(b@)),
            n <= i,
        decreases a@.len() - i,
    {
        proof {
            assert(words_view(a@).subrange(0, i + 1).drop_last() =~= words_view(a@).subrange(0, i as int));
        }
        if contains_word(b, &a[i]) {
            n = n + 1;
        }
        i = i + 1;
    }
    assert(words_view(a@).subrange(0, a@.len() as int) =~= words_view(a@));
    n
}

/// The ALSA capture device (`hw:N,0`) of the card that matches a MIDI port
/// name, if any.
pub fn find_capture_device(midi_port_name: &str, cards: &[CaptureCard]) -> (r: Option<String>)
    ensures
        match r {
            Some(d) => spec_find_capture_device(midi_port_name@, cards_view(cards@)) == Some(d@),
            None => spec_find_capture_device(midi_port_name@, cards_view(cards@)) is None,
        },
{
    let port_words = significant_words(midi_port_name);
    if port_words.len() == 0 {
        return None;
    }
    let ghost pw = words_view(port_words@);
    let ghost all = cards_view(cards@);
    let mut i: usize = 0;
    assert(all.subrange(0, all.len() as int) =~= all);
    while i < cards.len()
        invariant
            pw == words_view(port_words@),
            pw == spec_significant_words(midi_port_name@),
            pw.len() > 0,
            all == cards_view(cards@),
            i <= cards@.len(),
            first_matching_card(pw, all) == first_matching_card(pw, all.subrange(i as int, all.len() as int)),
        decreases cards@.len() - i,
    {
        let card_words = significant_words(cards[i].desc.as_str());
        let common = count_common(&port_words, &card_words);
        let ghost rest = all.subrange(i as int, all.len() as int);
        proof {
            assert(rest[0] == card_view(cards@[i as int]));
            assert(rest.drop_first() =~= all.subrange(i + 1, all.len() as int));
            assert(rest.len() > 0);
            assert(common == common_count(pw, spec_significant_words(rest[0].1)));
        }
        if common >= 2 {
            let idv = chars_of(cards[i].id.as_str());
            let mut d: Vec<char> = vec!['h', 'w', ':'];
            let mut k: usize = 0;
            while k < idv.len()
                invariant
                    k <= idv@.len(),
                    d@ == seq!['h', 'w', ':'] + idv@.subrange(0, k as int),
                decreases idv@.len() - k,
            {
                d.push(idv[k]);
                proof {
                    assert(idv@.subrange(0, k + 1) =~= idv@.subrange(0, k as int).push(idv@[k as int]));
                }
                k = k + 1;
            }
            d.push(',');
            d.push('0');
            proof {
                assert(idv@.subrange(0, idv@.len() as int) =~= idv@);
                assert(d@ =~= hw_device(cards@[i as int].id@));
                assert(first_matching_card(pw, rest) == Some(hw_device(rest[0].0)));
            }
            return Some(string_from_chars(d.as_slice()));
        }
        i = i + 1;
    }
    None
}

} // verus!
