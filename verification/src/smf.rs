//! Standard MIDI File (format 0) encoding: variable-length quantities,
//! big-endian header fields, tick-ordered events and the track chunk.
use vstd::prelude::*;

verus! {

/// Resolution of the generated files: 288 ticks per quarter note.
pub const TICKS_PER_BEAT: u32 = 288;

/// The high-order 7-bit groups of a VLQ (every byte carries the
/// continuation bit), most significant first.
pub open spec fn vlq_prefix(x: nat) -> Seq<u8>
    decreases x,
{
    if x == 0 {
        Seq::empty()
    } else {
        vlq_prefix(x / 128).push((x % 128 + 128) as u8)
    }
}

/// Variable-length quantity of `v`: 7 bits per byte, most significant group
/// first, bit 7 set on every byte but the last.
pub open spec fn vlq(v: nat) -> Seq<u8> {
    vlq_prefix(v / 128).push((v % 128) as u8)
}

/// Value read back from VLQ bytes: 7 payload bits per byte.
pub open spec fn vlq_value(s: Seq<u8>) -> nat
    decreases s.len(),
{
    if s.len() == 0 {
        0
    } else {
        vlq_value(s.drop_last()) * 128 + (s.last() % 128) as nat
    }
}

/// A well-formed VLQ: every byte but the last has bit 7 set, the last has it clear.
pub open spec fn vlq_well_formed(s: Seq<u8>) -> bool {
    &&& s.len() >= 1
    &&& forall|i: int| 0 <= i < s.len() - 1 ==> s[i] >= 128
    &&& s.last() < 128
}

proof fn lemma_vlq_prefix(x: nat)
    ensures
        vlq_value(vlq_prefix(x)) == x,
        forall|i: int| 0 <= i < vlq_prefix(x).len() ==> vlq_prefix(x)[i] >= 128,
        x < 128 ==> vlq_prefix(x).len() <= 1,
        x < 16384 ==> vlq_prefix(x).len() <= 2,
        x < 2097152 ==> vlq_prefix(x).len() <= 3,
        x < 268435456 ==> vlq_prefix(x).len() <= 4,
    decreases x,
{
    if x > 0 {
        lemma_vlq_prefix(x / 128);
        let p = vlq_prefix(x / 128);
        let q = p.push((x % 128 + 128) as u8);
        assert(q.drop_last() == p);
        assert(forall|i: int| 0 <= i < p.len() ==> q[i] == p[i]);
    }
}

/// Decoding the VLQ of any 32-bit value gives the value back; the encoding
/// is well formed and takes at most five bytes.
pub proof fn vlq_roundtrip(v: u32)
    ensures
        vlq_value(vlq(v as nat)) == v,
        vlq_well_formed(vlq(v as nat)),
        vlq(v as nat).len() <= 5,
{
    let x = (v / 128) as nat;
    lemma_vlq_prefix(x);
    let p = vlq_prefix(x);
    let q = p.push((v % 128) as u8);
    assert(q.drop_last() == p);
    assert(forall|i: int| 0 <= i < p.len() ==> q[i] == p[i]);
}

/// Appends the bytes of `src` to `buf`.
pub fn append_bytes(buf: &mut Vec<u8>, src: &[u8])
    ensures
        final(buf)@ == old(buf)@ + src@,
{
    let mut i: usize = 0;
    let ghost start = buf@;
    while i < src.len()
        invariant
            i <= src@.len(),
            buf@ == start + src@.subrange(0, i as int),
        decreases src@.len() - i,
    {
        buf.push(src[i]);
        proof {
            assert(src@.subrange(0, i + 1) == src@.subrange(0, i as int).push(src@[i as int]));
        }
        i = i + 1;
    }
    assert(src@.subrange(0, src@.len() as int) == src@);
}

/// Writes `v` as a variable-length quantity (delta times, meta lengths).
pub fn write_vlq(buf: &mut Vec<u8>, v: u32)
    ensures
        final(buf)@ == old(buf)@ + vlq(v as nat),
{
    // Groups are produced least significant first, then written in reverse.
    let mut groups: Vec<u8> = Vec::new();
    groups.push((v % 128) as u8);
    let mut x = v / 128;
    proof {
        lemma_vlq_prefix(x as nat);
    }
    while x > 0
        invariant
            vlq_prefix(x as nat) + groups@.reverse() == vlq(v as nat),
        decreases x,
    {
        let g = (x % 128 + 128) as u8;
        proof {
            assert(vlq_prefix(x as nat) == vlq_prefix((x / 128) as nat).push(g));
            assert(groups@.push(g).reverse() =~= seq![g] + groups@.reverse());
            assert(vlq_prefix((x / 128) as nat).push(g) + groups@.reverse() =~= vlq_prefix((x / 128) as nat) + (seq![g] + groups@.reverse()));
        }
        groups.push(g);
        x = x / 128;
    }
    let ghost start = buf@;
    let mut i = groups.len();
    assert(vlq_prefix(0) == Seq::<u8>::empty());
    while i > 0
        invariant
            i <= groups@.len(),
            buf@ == start + groups@.subrange(i as int, groups@.len() as int).reverse(),
            groups@.reverse() == vlq(v as nat),
        decreases i,
    {
        i = i - 1;
        buf.push(groups[i]);
        proof {
            assert(groups@.subrange(i as int, groups@.len() as int).reverse() =~= groups@.subrange(i + 1, groups@.len() as int).reverse().push(groups@[i as int]));
        }
    }
    assert(groups@.subrange(0, groups@.len() as int) == groups@);
}

/// Big-endian bytes of a 16-bit value.
pub open spec fn be16(v: u16) -> Seq<u8> {
    seq![(v / 256) as u8, (v % 256) as u8]
}

/// Big-endian bytes of a 32-bit value.
pub open spec fn be32(v: u32) -> Seq<u8> {
    seq![(v / 0x100_0000) as u8, ((v / 0x1_0000) % 256) as u8, ((v / 256) % 256) as u8, (v % 256) as u8]
}

/// Writes a 16-bit value big-endian.
pub fn write_u16(buf: &mut Vec<u8>, v: u16)
    ensures
        final(buf)@ == old(buf)@ + be16(v),
{
    buf.push((v / 256) as u8);
    buf.push((v % 256) as u8);
    assert(final(buf)@ =~= old(buf)@ + be16(v));
}

/// Writes a 32-bit value big-endian.
pub fn write_u32(buf: &mut Vec<u8>, v: u32)
    ensures
        final(buf)@ == old(buf)@ + be32(v),
{
    buf.push((v / 0x100_0000) as u8);
    buf.push(((v / 0x1_0000) % 256) as u8);
    buf.push(((v / 256) % 256) as u8);
    buf.push((v % 256) as u8);
    assert(final(buf)@ =~= old(buf)@ + be32(v));
}

/// A MIDI event at an absolute tick.
pub struct SmfEvent {
    pub tick: u32,
    pub bytes: Vec<u8>,
}

/// An event as a tick and its message bytes.
pub open spec fn ev_model(e: SmfEvent) -> (u32, Seq<u8>) {
    (e.tick, e.bytes@)
}

/// The events of a list as ticks and bytes.
pub open spec fn models(s: Seq<SmfEvent>) -> Seq<(u32, Seq<u8>)> {
    s.map_values(|e: SmfEvent| ev_model(e))
}

/// Index at which an event of tick `t` is inserted to keep ticks ordered
/// and equal ticks in arrival order: after every event of tick `<= t`.
pub open spec fn insert_pos(s: Seq<(u32, Seq<u8>)>, t: u32) -> int
    decreases s.len(),
{
    if s.len() == 0 {
        0
    } else if s.last().0 <= t {
        s.len() as int
    } else {
        insert_pos(s.drop_last(), t)
    }
}

/// Stable ordering by tick (equal ticks keep their order).
pub open spec fn sort_by_tick(s: Seq<(u32, Seq<u8>)>) -> Seq<(u32, Seq<u8>)>
    decreases s.len(),
{
    if s.len() == 0 {
        s
    } else {
        let sorted = sort_by_tick(s.drop_last());
        sorted.insert(insert_pos(sorted, s.last().0), s.last())
    }
}

/// Ticks are non-decreasing.
pub open spec fn ticks_sorted(s: Seq<(u32, Seq<u8>)>) -> bool {
    forall|i: int, j: int| 0 <= i <= j < s.len() ==> s[i].0 <= s[j].0
}

proof fn lemma_insert_pos(s: Seq<(u32, Seq<u8>)>, t: u32)
    requires
        ticks_sorted(s),
    ensures
        0 <= insert_pos(s, t) <= s.len(),
        forall|i: int| 0 <= i < insert_pos(s, t) ==> s[i].0 <= t,
        forall|i: int| insert_pos(s, t) <= i < s.len() ==> s[i].0 > t,
    decreases s.len(),
{
    if s.len() > 0 {
        let d = s.drop_last();
        assert(ticks_sorted(d));
        if s.last().0 > t {
            lemma_insert_pos(d, t);
            assert forall|i: int| 0 <= i < insert_pos(s, t) implies s[i].0 <= t by {
                assert(s[i] == d[i]);
            }
            assert forall|i: int| insert_pos(s, t) <= i < s.len() implies s[i].0 > t by {
                if i < s.len() - 1 {
                    assert(s[i] == d[i]);
                }
            }
        } else {
            assert forall|i: int| 0 <= i < insert_pos(s, t) implies s[i].0 <= t by {
                assert(s[i].0 <= s[s.len() - 1].0);
            }
        }
    }
}

/// Sorting by tick orders the ticks and keeps the events: the result is a
/// permutation of the input.
pub proof fn sort_by_tick_sorted(s: Seq<(u32, Seq<u8>)>)
    ensures
        ticks_sorted(sort_by_tick(s)),
        sort_by_tick(s).to_multiset() == s.to_multiset(),
    decreases s.len(),
{
    if s.len() > 0 {
        let prev = s.drop_last();
        sort_by_tick_sorted(prev);
        let sorted = sort_by_tick(prev);
        let e = s.last();
        lemma_insert_pos(sorted, e.0);
        let p = insert_pos(sorted, e.0);
        let r = sorted.insert(p, e);
        assert forall|i: int, j: int| 0 <= i <= j < r.len() implies r[i].0 <= r[j].0 by {
            if i < p && j < p {
            } else if i < p && j == p {
            } else if i < p {
                assert(r[j] == sorted[j - 1]);
            } else if i == p && j > p {
                assert(r[j] == sorted[j - 1]);
            } else if i > p {
                assert(r[i] == sorted[i - 1]);
                assert(r[j] == sorted[j - 1]);
            }
        }
        assert(s == prev.push(e));
        vstd::seq_lib::to_multiset_insert(sorted, p, e);
        vstd::seq_lib::to_multiset_build(prev, e);
    }
}

proof fn lemma_models_insert(s: Seq<SmfEvent>, p: int, e: SmfEvent)
    requires
        0 <= p <= s.len(),
    ensures
        models(s.insert(p, e)) == models(s).insert(p, ev_model(e)),
{
    assert(models(s.insert(p, e)) =~= models(s).insert(p, ev_model(e)));
}

/// Sorts events by tick, keeping the arrival order of equal ticks.
pub fn sort_events(evs: Vec<SmfEvent>) -> (r: Vec<SmfEvent>)
    ensures
        models(r@) == sort_by_tick(models(evs@)),
{
    let total = evs.len();
    let mut out: Vec<SmfEvent> = Vec::new();
    let mut rest = evs;
    let ghost orig = rest@;
    // Events are processed in arrival order: reverse once so that `pop`
    // yields them first to last.
    let mut rev: Vec<SmfEvent> = Vec::new();
    while rest.len() > 0
        invariant
            rev@ + rest@.reverse() == orig.reverse(),
        decreases rest@.len(),
    {
        let ghost before = rest@;
        let e = rest.pop().unwrap();
        proof {
            assert(before == rest@.push(e));
            assert(before.reverse() =~= seq![e] + rest@.reverse());
        }
        rev.push(e);
        assert(rev@ + rest@.reverse() =~= orig.reverse());
    }
    assert(rest@.reverse() =~= Seq::<SmfEvent>::empty());
    assert(rev@ =~= orig.reverse());
    let ghost n = orig.len();
    let mut k: usize = 0;
    assert(orig.subrange(0, 0) =~= Seq::<SmfEvent>::empty());
    assert(models(Seq::<SmfEvent>::empty()) =~= Seq::<(u32, Seq<u8>)>::empty());
    assert(orig.subrange(0, n as int).reverse() =~= orig.reverse());
    while rev.len() > 0
        invariant
            n == orig.len(),
            total == n,
            k + rev@.len() == n,
            rev@ == orig.subrange(k as int, n as int).reverse(),
            models(out@) == sort_by_tick(models(orig.subrange(0, k as int))),
        decreases rev@.len(),
    {
        let ghost before = rev@;
        let e = rev.pop().unwrap();
        proof {
            assert(before == rev@.push(e));
            assert(orig.subrange(k as int, n as int).reverse().last() == orig[k as int]);
            assert(e == orig[k as int]);
            assert(rev@ =~= orig.subrange(k + 1, n as int).reverse());
        }
        let t = e.tick;
        let mut p = out.len();
        assert(models(out@).subrange(0, p as int) == models(out@));
        while p > 0 && out[p - 1].tick > t
            invariant
                p <= out@.len(),
                insert_pos(models(out@), t) == insert_pos(models(out@).subrange(0, p as int), t),
            decreases p,
        {
            proof {
                let sub = models(out@).subrange(0, p as int);
                assert(sub.drop_last() == models(out@).subrange(0, p - 1));
            }
            p = p - 1;
        }
        proof {
            let sub = models(out@).subrange(0, p as int);
            if p > 0 {
                assert(sub.last().0 <= t);
            }
            let pre = orig.subrange(0, k as int);
            let post = orig.subrange(0, k + 1);
            assert(post.drop_last() == pre);
            assert(post.last() == e);
            assert(models(post).drop_last() == models(pre));
            assert(models(post).last() == ev_model(e));
            lemma_models_insert(out@, p as int, e);
        }
        out.insert(p, e);
        k = k + 1;
    }
    assert(orig.subrange(0, n as int) == orig);
    out
}

/// Track data of ordered events: each event is preceded by the VLQ of its
/// distance in ticks to the previous one (the first to tick `prev`).
/// Distances below zero count as zero.
pub open spec fn track_events(s: Seq<(u32, Seq<u8>)>, prev: u32) -> Seq<u8>
    decreases s.len(),
{
    if s.len() == 0 {
        Seq::empty()
    } else {
        let d: nat = if s[0].0 >= prev { (s[0].0 - prev) as nat } else { 0 };
        vlq(d) + s[0].1 + track_events(s.drop_first(), s[0].0)
    }
}

/// Writes ordered events as delta-time track data.
pub fn write_track_events(buf: &mut Vec<u8>, evs: &Vec<SmfEvent>)
    ensures
        final(buf)@ == old(buf)@ + track_events(models(evs@), 0),
{
    let ghost start = buf@;
    let mut prev: u32 = 0;
    let mut i: usize = 0;
    assert(models(evs@).subrange(0, evs@.len() as int) == models(evs@));
    while i < evs.len()
        invariant
            i <= evs@.len(),
            prev == (if i == 0 { 0 } else { evs@[i - 1].tick }),
            buf@ + track_events(models(evs@).subrange(i as int, evs@.len() as int), prev)
                == start + track_events(models(evs@), 0),
        decreases evs@.len() - i,
    {
        let ev = &evs[i];
        let delta = if ev.tick >= prev { ev.tick - prev } else { 0 };
        proof {
            let rest = models(evs@).subrange(i as int, evs@.len() as int);
            assert(rest[0] == ev_model(evs@[i as int]));
            assert(rest.drop_first() == models(evs@).subrange(i + 1, evs@.len() as int));
        }
        let ghost b0 = buf@;
        write_vlq(buf, delta);
        append_bytes(buf, ev.bytes.as_slice());
        proof {
            let rest = models(evs@).subrange(i as int, evs@.len() as int);
            let tail = models(evs@).subrange(i + 1, evs@.len() as int);
            assert(track_events(rest, prev) == vlq(delta as nat) + evs@[i as int].bytes@ + track_events(tail, evs@[i as int].tick));
            assert(buf@ == b0 + vlq(delta as nat) + evs@[i as int].bytes@);
            assert(buf@ + track_events(tail, evs@[i as int].tick) =~= b0 + track_events(rest, prev));
        }
        prev = ev.tick;
        i = i + 1;
    }
}

/// End-of-track meta event.
pub open spec fn end_of_track() -> Seq<u8> {
    seq![0xFFu8, 0x2Fu8, 0x00u8]
}

/// Header chunk of a format-0 file with one track and `tpb` ticks per beat.
pub open spec fn smf_header(tpb: u16) -> Seq<u8> {
    "MThd"@.map_values(|c: char| c as u8) + be32(6) + be16(0) + be16(1) + be16(tpb)
}

/// A track chunk holding `data`.
pub open spec fn track_chunk(data: Seq<u8>) -> Seq<u8> {
    "MTrk"@.map_values(|c: char| c as u8) + be32(data.len() as u32) + data
}

/// Appends four ASCII characters given as bytes.
fn write_tag(buf: &mut Vec<u8>, a: u8, b: u8, c: u8, d: u8)
    ensures
        final(buf)@ == old(buf)@ + seq![a, b, c, d],
{
    buf.push(a);
    buf.push(b);
    buf.push(c);
    buf.push(d);
    assert(final(buf)@ =~= old(buf)@ + seq![a, b, c, d]);
}

proof fn lemma_tag_bytes()
    ensures
        "MThd"@.map_values(|c: char| c as u8) == seq![0x4Du8, 0x54u8, 0x68u8, 0x64u8],
        "MTrk"@.map_values(|c: char| c as u8) == seq![0x4Du8, 0x54u8, 0x72u8, 0x6Bu8],
{
    reveal_strlit("MThd");
    reveal_strlit("MTrk");
    assert("MThd"@.map_values(|c: char| c as u8) =~= seq![0x4Du8, 0x54u8, 0x68u8, 0x64u8]);
    assert("MTrk"@.map_values(|c: char| c as u8) =~= seq![0x4Du8, 0x54u8, 0x72u8, 0x6Bu8]);
}

/// Writes the header chunk.
pub fn write_header(buf: &mut Vec<u8>, tpb: u16)
    ensures
        final(buf)@ == old(buf)@ + smf_header(tpb),
{
    proof {
        lemma_tag_bytes();
    }
    let ghost start = buf@;
    write_tag(buf, 0x4D, 0x54, 0x68, 0x64);
    write_u32(buf, 6);
    write_u16(buf, 0);
    write_u16(buf, 1);
    write_u16(buf, tpb);
    assert(buf@ =~= start + smf_header(tpb));
}

/// Writes a track chunk holding `data`.
pub fn write_track_chunk(buf: &mut Vec<u8>, data: &Vec<u8>)
    ensures
        final(buf)@ == old(buf)@ + track_chunk(data@),
{
    proof {
        lemma_tag_bytes();
    }
    let ghost start = buf@;
    write_tag(buf, 0x4D, 0x54, 0x72, 0x6B);
    write_u32(buf, data.len() as u32);
    append_bytes(buf, data.as_slice());
    assert(buf@ =~= start + track_chunk(data@));
}

/// Microseconds per quarter note at `tempo` BPM (at least 1 BPM).
pub open spec fn tempo_us(tempo: u32) -> u32 {
    (60_000_000int / (if tempo == 0 { 1int } else { tempo as int })) as u32
}

/// Tempo meta event (FF 51 03 + 24-bit big-endian microseconds per beat).
pub open spec fn tempo_meta(us: u32) -> Seq<u8> {
    seq![0xFFu8, 0x51u8, 0x03u8, ((us / 0x1_0000) % 256) as u8, ((us / 256) % 256) as u8, (us % 256) as u8]
}

/// Tempo meta event bytes.
pub fn tempo_meta_bytes(us: u32) -> (r: Vec<u8>)
    ensures
        r@ == tempo_meta(us),
{
    let r = vec![0xFFu8, 0x51u8, 0x03u8, ((us / 0x1_0000) % 256) as u8, ((us / 256) % 256) as u8, (us % 256) as u8];
    assert(r@ =~= tempo_meta(us));
    r
}

/// Microseconds per quarter note for a tempo in BPM.
pub fn tempo_to_us(tempo: u32) -> (r: u32)
    ensures
        r == tempo_us(tempo),
{
    let t: u64 = if tempo == 0 { 1 } else { tempo as u64 };
    (60_000_000u64 / t) as u32
}

} // verus!
