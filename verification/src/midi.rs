//! Tiny Standard MIDI File reader: just enough to extract the timing division,
//! the first time signature, and the total length (honouring tempo changes).

use crate::sorting;
use crate::sorting::{sort_positions, ByNumber};
use vstd::prelude::*;

verus! {

/// A length of time in seconds, as the fraction `num / den`. `den` is 0 only
/// for a length that is not known.
#[derive(Clone, Copy, PartialEq, Eq, Structural, Debug)]
pub struct Length {
    pub num: u128,
    pub den: u64,
}

#[derive(Clone, Copy, PartialEq, Eq, Structural, Debug)]
pub struct MidiInfo {
    /// Ticks per quarter note (PPQ). 0 means SMPTE/unknown timing.
    pub division: u16,
    /// Total length. `0 / 0` when the timing is unknown.
    pub length: Length,
    /// Time signature numerator (beats per bar).
    pub ts_num: u8,
    /// Time signature denominator as a note value (4 = quarter, 8 = eighth, ...).
    pub ts_den: u8,
}

// --- the file format --------------------------------------------------------

/// The big-endian number in the two bytes at `i`.
pub open spec fn be16(d: Seq<u8>, i: int) -> int {
    d[i] as int * 256 + d[i + 1]
}

/// The big-endian number in the four bytes at `i`.
pub open spec fn be32(d: Seq<u8>, i: int) -> int {
    be16(d, i) * 65536 + be16(d, i + 2)
}

/// A variable-length quantity from `pos` on, continuing `acc`: seven bits per
/// byte, the last byte without its top bit, of which the low 32 bits count.
/// Gives the quantity and the position after it.
pub open spec fn varlen(d: Seq<u8>, pos: int, acc: int) -> (int, int)
    decreases d.len() - pos,
{
    if pos < 0 || pos >= d.len() {
        (acc, pos)
    } else {
        let v = (acc * 128 + d[pos] % 128) % 0x1_0000_0000;
        if d[pos] < 128 {
            (v, pos + 1)
        } else {
            varlen(d, pos + 1, v)
        }
    }
}

pub open spec fn least(a: int, b: int) -> int {
    if a <= b {
        a
    } else {
        b
    }
}

/// What is gathered from the tracks: the tempo changes as (tick, microseconds
/// per quarter note) in the order of the file, the last tick of the longest
/// track, and the first time signature.
#[verifier::ext_equal]
pub struct Gathered {
    pub tempos: Seq<(int, int)>,
    pub end_tick: int,
    pub ts: Option<(int, int)>,
}

impl Gathered {
    /// With a track that ends at `tick`.
    pub open spec fn ends_at(self, tick: int) -> Gathered {
        Gathered { end_tick: if tick > self.end_tick { tick } else { self.end_tick }, ..self }
    }

    /// With the meta event of type `kind` at `tick`: a tempo of three bytes, or
    /// the first time signature, whose denominator is a power of two that fits
    /// in a byte and else 4.
    pub open spec fn meta(self, kind: u8, payload: Seq<u8>, tick: int) -> Gathered {
        if kind == 0x51 && payload.len() == 3 {
            let tempo = (payload[0] as int * 256 + payload[1]) * 256 + payload[2];
            Gathered { tempos: self.tempos.push((tick, tempo)), ..self }
        } else if kind == 0x58 && payload.len() >= 2 && self.ts is None {
            Gathered { ts: Some((payload[0] as int, note_value(payload[1]))), ..self }
        } else {
            self
        }
    }
}

/// Two to the power of `n`, when that fits in a byte, and else 4.
pub open spec fn note_value(n: u8) -> int {
    if n == 0 {
        1
    } else if n == 1 {
        2
    } else if n == 2 {
        4
    } else if n == 3 {
        8
    } else if n == 4 {
        16
    } else if n == 5 {
        32
    } else if n == 6 {
        64
    } else if n == 7 {
        128
    } else {
        4
    }
}

/// The events of a track from `pos` on: `abs` is the tick reached, `running`
/// the status byte that an event without one repeats.
pub open spec fn track(d: Seq<u8>, pos: int, abs: int, running: u8, g: Gathered) -> Gathered
    decreases if pos < d.len() { d.len() - pos } else { 0 },
    via track_decreases
{
    if pos < 0 || pos >= d.len() {
        g.ends_at(abs)
    } else {
        let (delta, p1) = varlen(d, pos, 0);
        let tick = abs + delta;
        if p1 >= d.len() {
            g.ends_at(tick)
        } else {
            let (status, p2) = if d[p1] < 0x80 {
                (running, p1)
            } else {
                (d[p1], p1 + 1)
            };
            if status == 0xff {
                if p2 >= d.len() {
                    g.ends_at(tick)
                } else {
                    let (n, p4) = varlen(d, p2 + 1, 0);
                    let e = least(p4 + n, d.len() as int);
                    track(d, e, tick, status, g.meta(d[p2], d.subrange(p4, e), tick))
                }
            } else if status == 0xf0 || status == 0xf7 {
                let (n, p3) = varlen(d, p2, 0);
                track(d, least(p3 + n, d.len() as int), tick, status, g)
            } else {
                track(d, p2 + data_bytes(status), tick, status, g)
            }
        }
    }
}

/// How many data bytes follow a channel status byte.
pub open spec fn data_bytes(status: u8) -> int {
    if 0xc0 <= status < 0xe0 {
        1
    } else {
        2
    }
}

/// A quantity is read to its end, and fits in 32 bits.
pub proof fn lemma_varlen(d: Seq<u8>, pos: int, acc: int)
    requires
        0 <= pos <= d.len(),
        0 <= acc < 0x1_0000_0000,
    ensures
        pos <= varlen(d, pos, acc).1 <= d.len(),
        pos < d.len() ==> pos < varlen(d, pos, acc).1,
        0 <= varlen(d, pos, acc).0 < 0x1_0000_0000,
    decreases d.len() - pos,
{
    if pos < d.len() && d[pos] >= 128 {
        lemma_varlen(d, pos + 1, (acc * 128 + d[pos] % 128) % 0x1_0000_0000);
    }
}

#[via_fn]
proof fn track_decreases(d: Seq<u8>, pos: int, abs: int, running: u8, g: Gathered) {
    if 0 <= pos < d.len() {
        lemma_varlen(d, pos, 0);
        let p1 = varlen(d, pos, 0).1;
        if p1 < d.len() {
            lemma_varlen(d, p1, 0);
            lemma_varlen(d, p1 + 1, 0);
            if p1 + 1 < d.len() {
                lemma_varlen(d, p1 + 2, 0);
            }
        }
    }
}

/// The chunks of a file from `pos` on; the tracks among them are gathered, a
/// chunk that runs past the end of the file as far as it goes.
pub open spec fn chunks(d: Seq<u8>, pos: int, g: Gathered) -> Gathered
    decreases d.len() - pos,
    via chunks_decreases
{
    if pos < 0 || pos + 8 > d.len() {
        g
    } else {
        let e = least(pos + 8 + be32(d, pos + 4), d.len() as int);
        let next = if d.subrange(pos, pos + 4) == track_id() {
            track(d.subrange(pos + 8, e), 0, 0, 0, g)
        } else {
            g
        };
        chunks(d, e, next)
    }
}

#[via_fn]
proof fn chunks_decreases(d: Seq<u8>, pos: int, g: Gathered) {
}

/// "MTrk".
pub open spec fn track_id() -> Seq<u8> {
    seq![77u8, 84u8, 114u8, 107u8]
}

/// "MThd".
pub open spec fn header_id() -> Seq<u8> {
    seq![77u8, 84u8, 104u8, 100u8]
}

/// What the chunks of a file hold.
pub open spec fn gathered(d: Seq<u8>) -> Gathered {
    chunks(d, 14, Gathered { tempos: seq![], end_tick: 0, ts: None })
}

/// The division of a file with a header; 0 for SMPTE timing.
pub open spec fn division(d: Seq<u8>) -> int {
    let n = be16(d, 12);
    if n < 0x8000 {
        n
    } else {
        0
    }
}

/// True when the data starts with a whole MIDI header.
pub open spec fn has_header(d: Seq<u8>) -> bool {
    d.len() >= 14 && d.take(4) == header_id()
}

/// The tempo changes in order of their ticks.
pub open spec fn by_tick(tempos: Seq<(int, int)>) -> Seq<(int, int)> {
    sorting::reorder(
        tempos,
        sorting::order(sorting::number_keys(tempos.map_values(|t: (int, int)| t.0))),
    )
}

/// The sum of ticks times microseconds per quarter note over the ticks from
/// `prev` to `end`, with the tempo `cur` at `prev` and the changes in `tempos`.
pub open spec fn span(tempos: Seq<(int, int)>, end: int, prev: int, cur: int) -> int
    decreases tempos.len(),
{
    if tempos.len() == 0 {
        if end > prev {
            (end - prev) * cur
        } else {
            0
        }
    } else {
        let (tick, tempo) = tempos[0];
        (if tick > prev {
            (tick - prev) * cur
        } else {
            0
        }) + span(tempos.drop_first(), end, tick, tempo)
    }
}

/// The tempo before any change: 120 beats per minute.
pub const DEFAULT_TEMPO: u32 = 500_000;

/// What [`parse`] reads out of the bytes of a file.
pub open spec fn parsed(d: Seq<u8>) -> Option<MidiInfo> {
    if has_header(d) {
        let g = gathered(d);
        let div = division(d);
        let (num, den) = match g.ts {
            Some(t) => t,
            None => (4int, 4int),
        };
        Some(
            MidiInfo {
                division: div as u16,
                length: if div > 0 {
                    Length {
                        num: span(by_tick(g.tempos), g.end_tick, 0, DEFAULT_TEMPO as int) as u128,
                        den: (div * 1_000_000) as u64,
                    }
                } else {
                    Length { num: 0, den: 0 }
                },
                ts_num: num as u8,
                ts_den: den as u8,
            },
        )
    } else {
        None
    }
}

// --- reading ----------------------------------------------------------------

/// What has been gathered so far.
struct Facts {
    tempos: Vec<(u128, u32)>,
    end_tick: u128,
    ts: Option<(u8, u8)>,
}

/// The tempo changes as mathematical numbers.
spec fn tempo_ints(v: Seq<(u128, u32)>) -> Seq<(int, int)> {
    v.map_values(|t: (u128, u32)| (t.0 as int, t.1 as int))
}

impl Facts {
    spec fn as_gathered(&self) -> Gathered {
        Gathered {
            tempos: tempo_ints(self.tempos@),
            end_tick: self.end_tick as int,
            ts: match self.ts {
                Some((a, b)) => Some((a as int, b as int)),
                None => None,
            },
        }
    }

    /// No tick is past `max`, and every tempo fits in three bytes.
    spec fn bounded(&self, max: int) -> bool {
        &&& self.end_tick <= max
        &&& forall|i: int|
            0 <= i < self.tempos@.len() ==> (#[trigger] self.tempos@[i]).0 <= max && self.tempos@[i].1
                < 0x100_0000
    }

    fn ends_at(&mut self, tick: u128)
        ensures
            final(self).as_gathered() == old(self).as_gathered().ends_at(tick as int),
            forall|max: int|
                old(self).bounded(max) && tick <= max ==> #[trigger] final(self).bounded(max),
    {
        if tick > self.end_tick {
            self.end_tick = tick;
        }
    }

    fn meta(&mut self, kind: u8, d: &Vec<u8>, from: usize, to: usize, tick: u128)
        requires
            from <= to <= d@.len(),
        ensures
            final(self).as_gathered() == old(self).as_gathered().meta(
                kind,
                d@.subrange(from as int, to as int),
                tick as int,
            ),
            forall|max: int|
                old(self).bounded(max) && tick <= max ==> #[trigger] final(self).bounded(max),
    {
        let ghost before = self.as_gathered();
        let n: usize = to - from;
        if kind == 0x51 && n == 3 {
            let tempo: u32 = (d[from] as u32 * 256 + d[from + 1] as u32) * 256 + d[from + 2] as u32;
            self.tempos.push((tick, tempo));
            assert(self.as_gathered().tempos =~= before.tempos.push((tick as int, tempo as int)));
        } else if kind == 0x58 && n >= 2 && self.ts.is_none() {
            self.ts = Some((d[from], note_value_of(d[from + 1])));
        }
    }
}

fn note_value_of(n: u8) -> (r: u8)
    ensures
        r == note_value(n),
{
    match n {
        0 => 1,
        1 => 2,
        2 => 4,
        3 => 8,
        4 => 16,
        5 => 32,
        6 => 64,
        7 => 128,
        _ => 4,
    }
}

/// Reads a variable-length quantity; gives it with the position after it.
fn read_varlen(d: &Vec<u8>, pos: usize) -> (r: (u32, usize))
    requires
        pos <= d@.len(),
    ensures
        (r.0 as int, r.1 as int) == varlen(d@, pos as int, 0),
        pos <= r.1 <= d@.len(),
        pos < d@.len() ==> pos < r.1,
{
    proof {
        lemma_varlen(d@, pos as int, 0);
    }
    let mut v: u32 = 0;
    let mut p: usize = pos;
    while p < d.len()
        invariant
            pos <= p <= d@.len(),
            varlen(d@, p as int, v as int) == varlen(d@, pos as int, 0),
            pos <= varlen(d@, pos as int, 0).1 <= d@.len(),
            pos < d@.len() ==> pos < varlen(d@, pos as int, 0).1,
        decreases d.len() - p,
    {
        let b: u8 = d[p];
        let w: u64 = (v as u64 * 128 + (b % 128) as u64) % 0x1_0000_0000;
        v = w as u32;
        p = p + 1;
        if b < 128 {
            return (v, p);
        }
    }
    (v, p)
}

/// A tick no file that fits in memory can reach.
spec fn max_tick() -> int {
    0x1_0000_0000_0000_0000_0000_0000
}

/// The position `n` bytes after `pos`, but not past the end.
fn forward(d: &Vec<u8>, pos: usize, n: u32) -> (r: usize)
    requires
        pos <= d@.len(),
    ensures
        r == least(pos + n, d@.len() as int),
{
    if (n as u64) < (d.len() - pos) as u64 {
        pos + n as usize
    } else {
        d.len()
    }
}

/// Gathers the events of one track.
fn parse_track(d: &Vec<u8>, f: &mut Facts)
    requires
        old(f).bounded(max_tick()),
    ensures
        final(f).as_gathered() == track(d@, 0, 0, 0, old(f).as_gathered()),
        final(f).bounded(max_tick()),
{
    let len: usize = d.len();
    let ghost whole = track(d@, 0, 0, 0, f.as_gathered());
    let mut pos: usize = 0;
    let mut abs: u128 = 0;
    let mut running: u8 = 0;
    while pos < len
        invariant_except_break
            abs <= pos * 0x1_0000_0000,
            track(d@, pos as int, abs as int, running, f.as_gathered()) == whole,
        invariant
            len == d@.len(),
            abs <= max_tick(),
            f.bounded(max_tick()),
        ensures
            f.as_gathered().ends_at(abs as int) == whole,
        decreases len - pos,
    {
        let (delta, p1) = read_varlen(d, pos);
        proof {
            assert(abs + delta <= p1 * 0x1_0000_0000);
            assert(p1 * 0x1_0000_0000 <= max_tick());
        }
        abs = abs + delta as u128;
        if p1 >= len {
            break;
        }
        let b: u8 = d[p1];
        let status: u8 = if b < 0x80 { running } else { b };
        let p2: usize = if b < 0x80 { p1 } else { p1 + 1 };
        running = status;
        if status == 0xff {
            if p2 >= len {
                break;
            }
            let (n, p4) = read_varlen(d, p2 + 1);
            let e = forward(d, p4, n);
            f.meta(d[p2], d, p4, e, abs);
            pos = e;
        } else if status == 0xf0 || status == 0xf7 {
            let (n, p3) = read_varlen(d, p2);
            pos = forward(d, p3, n);
        } else {
            let n: u32 = if 0xc0 <= status && status < 0xe0 { 1 } else { 2 };
            pos = forward(d, p2, n);
            proof {
                if p2 + n > len {
                    assert(track(d@, p2 + n, abs as int, status, f.as_gathered())
                        == f.as_gathered().ends_at(abs as int));
                }
            }
        }
    }
    f.ends_at(abs);
}

/// The bytes `from..to` of `d`.
fn bytes_of(d: &Vec<u8>, from: usize, to: usize) -> (r: Vec<u8>)
    requires
        from <= to <= d@.len(),
    ensures
        r@ == d@.subrange(from as int, to as int),
{
    let mut r: Vec<u8> = Vec::new();
    let mut i: usize = from;
    while i < to
        invariant
            from <= i <= to <= d@.len(),
            r@ == d@.subrange(from as int, i as int),
        decreases to - i,
    {
        r.push(d[i]);
        assert(d@.subrange(from as int, i + 1) =~= d@.subrange(from as int, i as int).push(
            d@[i as int],
        ));
        i = i + 1;
    }
    r
}

/// True when the four bytes at `i` are `a`, `b`, `c`, `e`.
fn four_are(d: &Vec<u8>, i: usize, a: u8, b: u8, c: u8, e: u8) -> (r: bool)
    requires
        i + 4 <= d@.len(),
    ensures
        r == (d@.subrange(i as int, i + 4) == seq![a, b, c, e]),
{
    let n: usize = d.len();
    assert(i + 4 <= n);
    let r = d[i] == a && d[i + 1] == b && d[i + 2] == c && d[i + 3] == e;
    proof {
        let t = d@.subrange(i as int, i + 4);
        let u = seq![a, b, c, e];
        assert(t[0] == d@[i as int] && t[1] == d@[i + 1] && t[2] == d@[i + 2] && t[3] == d@[i + 3]);
        assert(u[0] == a && u[1] == b && u[2] == c && u[3] == e);
        if r {
            assert(t =~= u);
        }
    }
    r
}

/// The sum of ticks times tempo over the whole file.
fn duration(f: &Facts) -> (r: u128)
    requires
        f.bounded(max_tick()),
    ensures
        r == span(
            by_tick(f.as_gathered().tempos),
            f.end_tick as int,
            0,
            DEFAULT_TEMPO as int,
        ),
{
    let mut rows: Vec<u128> = Vec::new();
    let mut i: usize = 0;
    while i < f.tempos.len()
        invariant
            i <= f.tempos@.len(),
            rows@.len() == i,
            forall|k: int| 0 <= k < i ==> rows@[k] == (#[trigger] f.tempos@[k]).0,
        decreases f.tempos.len() - i,
    {
        rows.push(f.tempos[i].0);
        i = i + 1;
    }
    let by = ByNumber { rows, greatest_first: false };
    let at = sort_positions(&by);
    let ghost t = tempo_ints(f.tempos@);
    let ghost ticks = t.map_values(|x: (int, int)| x.0);
    let ghost keys = sorting::number_keys(ticks);
    assert(by.numbers() =~= ticks);
    let ghost sorted = by_tick(t);
    let ghost end = f.end_tick as int;
    let ghost whole = span(sorted, end, 0, DEFAULT_TEMPO as int);
    let mut acc: u128 = 0;
    let mut prev: u128 = 0;
    let mut cur: u32 = DEFAULT_TEMPO;
    let mut k: usize = 0;
    assert(sorted.skip(0) =~= sorted);
    assert(f.tempos@.len() == at@.len());
    while k < at.len()
        invariant
            k <= at@.len(),
            at@.len() == f.tempos@.len(),
            f.bounded(max_tick()),
            forall|j: int| 0 <= j < at@.len() ==> #[trigger] at@[j] < f.tempos@.len(),
            t == tempo_ints(f.tempos@),
            ticks == t.map_values(|x: (int, int)| x.0),
            keys == sorting::number_keys(ticks),
            sorting::ints(at@) == sorting::order(keys),
            sorting::is_order(keys, sorting::order(keys)),
            sorted == by_tick(t),
            sorted.len() == at@.len(),
            cur < 0x100_0000,
            prev <= max_tick(),
            acc <= prev * 0x100_0000,
            k > 0 ==> prev == f.tempos@[at@[k - 1] as int].0,
            k == 0 ==> prev == 0,
            acc + span(sorted.skip(k as int), end, prev as int, cur as int) == whole,
        decreases at.len() - k,
    {
        let (tick, tempo) = f.tempos[at[k]];
        proof {
            assert(sorted.skip(k as int)[0] == sorted[k as int]);
            assert(sorted[k as int] == t[sorting::order(keys)[k as int]]);
            assert(sorting::order(keys)[k as int] == at@[k as int] as int);
            assert(sorted.skip(k as int).drop_first() =~= sorted.skip(k + 1));
            if k > 0 {
                let p = sorting::order(keys);
                assert(p[k - 1] == at@[k - 1] as int);
                assert(sorting::before(keys, p[k - 1], p[k as int]));
                reveal_with_fuel(sorting::key_less, 2);
                assert(keys[p[k - 1]] == seq![ticks[p[k - 1]]]);
                assert(keys[p[k as int]] == seq![ticks[p[k as int]]]);
                assert(keys[p[k - 1]][0] <= keys[p[k as int]][0]);
                assert(prev <= tick);
            }
            if tick > prev {
                assert((tick - prev) * cur <= (tick - prev) * 0x100_0000) by (nonlinear_arith)
                    requires
                        tick > prev,
                        cur < 0x100_0000,
                ;
                assert((tick - prev) * 0x100_0000 == tick * 0x100_0000 - prev * 0x100_0000);
            }
        }
        if tick > prev {
            acc = acc + (tick - prev) * cur as u128;
        }
        cur = tempo;
        prev = tick;
        k = k + 1;
    }
    assert(sorted.skip(k as int) =~= seq![]);
    if f.end_tick > prev {
        proof {
            let e = f.end_tick;
            assert((e - prev) * cur <= (e - prev) * 0x100_0000) by (nonlinear_arith)
                requires
                    e > prev,
                    cur < 0x100_0000,
            ;
            assert((e - prev) * 0x100_0000 == e * 0x100_0000 - prev * 0x100_0000);
        }
        acc = acc + (f.end_tick - prev) * cur as u128;
    }
    acc
}

/// Read the header, the tracks' tempo changes and the first time signature out
/// of the bytes of a MIDI file. `None` when they do not start with a whole
/// MIDI header.
pub fn parse(data: &Vec<u8>) -> (r: Option<MidiInfo>)
    ensures
        r == parsed(data@),
        r matches Some(i) ==> {
            &&& i.division == division(data@)
            &&& i.division > 0 ==> i.length.num == span(
                by_tick(gathered(data@).tempos),
                gathered(data@).end_tick,
                0,
                DEFAULT_TEMPO as int,
            ) && i.length.den == i.division * 1_000_000
        },
{
    let len: usize = data.len();
    if len < 14 || !four_are(data, 0, 77, 84, 104, 100) {
        proof {
            assert(data@.len() >= 14 ==> data@.subrange(0, 4) =~= data@.take(4));
        }
        return None;
    }
    assert(data@.subrange(0, 4) =~= data@.take(4));
    let raw: u32 = data[12] as u32 * 256 + data[13] as u32;
    let division: u16 = if raw < 0x8000 { raw as u16 } else { 0 };
    let mut f = Facts { tempos: Vec::new(), end_tick: 0, ts: None };
    let ghost whole = gathered(data@);
    assert(f.as_gathered() =~= Gathered { tempos: seq![], end_tick: 0, ts: None });
    let mut pos: usize = 14;
    while len - pos >= 8
        invariant
            len == data@.len(),
            pos <= len,
            f.bounded(max_tick()),
            chunks(data@, pos as int, f.as_gathered()) == whole,
        decreases len - pos,
    {
        let n: u32 = (data[pos + 4] as u32 * 256 + data[pos + 5] as u32) * 65536 + (data[pos + 6]
            as u32 * 256 + data[pos + 7] as u32);
        let e = forward(data, pos + 8, n);
        if four_are(data, pos, 77, 84, 114, 107) {
            let body = bytes_of(data, pos + 8, e);
            parse_track(&body, &mut f);
        }
        pos = e;
    }
    let (ts_num, ts_den): (u8, u8) = match f.ts {
        Some(t) => t,
        None => (4, 4),
    };
    let length = if division > 0 {
        Length { num: duration(&f), den: division as u64 * 1_000_000 }
    } else {
        Length { num: 0, den: 0 }
    };
    Some(MidiInfo { division, length, ts_num, ts_den })
}

} // verus!
