//! What holds of reading MIDI files: that a file reads back as what was written
//! to it, and that its length is the time its ticks take.

use crate::midi;
use crate::midi::Gathered;
use crate::sorting;
use vstd::prelude::*;

verus! {

// --- what a file is written as ----------------------------------------------

/// An event of a track. `delta` is the number of ticks since the one before it.
pub enum Event {
    /// A message to a channel; `bare` when its status byte is left out because
    /// the event before had the same.
    Channel { delta: nat, status: u8, data: Seq<u8>, bare: bool },
    Meta { delta: nat, kind: u8, payload: Seq<u8> },
    Sysex { delta: nat, status: u8, payload: Seq<u8> },
}

impl Event {
    pub open spec fn delta(self) -> nat {
        match self {
            Event::Channel { delta, .. } => delta,
            Event::Meta { delta, .. } => delta,
            Event::Sysex { delta, .. } => delta,
        }
    }

    /// The status byte of the event, written or not.
    pub open spec fn status(self) -> u8 {
        match self {
            Event::Channel { status, .. } => status,
            Event::Meta { .. } => 0xff,
            Event::Sysex { status, .. } => status,
        }
    }

    /// True for an event that can be written after one with the status `prev`.
    pub open spec fn valid(self, prev: u8) -> bool {
        self.delta() < 0x1_0000_0000 && match self {
            Event::Channel { delta: _, status, data, bare } => {
                &&& 0x80 <= status < 0xf0
                &&& data.len() == if 0xc0 <= status <= 0xdf {
                    1nat
                } else {
                    2nat
                }
                &&& bare ==> prev == status && data[0] < 0x80
            },
            Event::Meta { delta: _, kind: _, payload } => payload.len() < 0x1_0000_0000,
            Event::Sysex { delta: _, status, payload } => (status == 0xf0 || status == 0xf7)
                && payload.len() < 0x1_0000_0000,
        }
    }

    /// The bytes of the event after its delta.
    pub open spec fn body(self) -> Seq<u8> {
        match self {
            Event::Channel { delta: _, status, data, bare } => if bare {
                data
            } else {
                seq![status] + data
            },
            Event::Meta { delta: _, kind, payload } => seq![0xffu8, kind] + quantity(payload.len())
                + payload,
            Event::Sysex { delta: _, status, payload } => seq![status] + quantity(payload.len())
                + payload,
        }
    }

    pub open spec fn bytes(self) -> Seq<u8> {
        quantity(self.delta()) + self.body()
    }

    /// The microseconds per quarter note that the event sets, if it is a change
    /// of tempo.
    pub open spec fn tempo(self) -> Option<int> {
        match self {
            Event::Meta { delta: _, kind: 0x51, payload } => if payload.len() == 3 {
                Some(payload[0] * 65536 + payload[1] * 256 + payload[2])
            } else {
                None
            },
            _ => None,
        }
    }

    /// The beats of a bar and the note that is one beat, if the event is a time
    /// signature. A note too short to be told counts as a quarter.
    pub open spec fn signature(self) -> Option<(int, int)> {
        match self {
            Event::Meta { delta: _, kind: 0x58, payload } => if payload.len() >= 2 {
                Some(
                    (
                        payload[0] as int,
                        if payload[1] < 8 {
                            vstd::arithmetic::power::pow(2, payload[1] as nat)
                        } else {
                            4
                        },
                    ),
                )
            } else {
                None
            },
            _ => None,
        }
    }
}

/// The bytes of a number but for its last seven bits.
pub open spec fn heads(m: nat) -> Seq<u8>
    decreases m,
{
    if m == 0 {
        seq![]
    } else {
        heads(m / 128).push((128 + m % 128) as u8)
    }
}

/// A number as it is written in seven bits a byte, the highest first; each byte
/// but the last has its top bit set.
pub open spec fn quantity(n: nat) -> Seq<u8> {
    heads(n / 128).push((n % 128) as u8)
}

/// The bytes of the first `n` events of a track.
pub open spec fn track_bytes(t: Seq<Event>, n: int) -> Seq<u8>
    decreases n,
{
    if n <= 0 {
        seq![]
    } else {
        track_bytes(t, n - 1) + t[n - 1].bytes()
    }
}

/// The tick of the event before the `n`-th.
pub open spec fn tick_after(t: Seq<Event>, n: int) -> int
    decreases n,
{
    if n <= 0 {
        0
    } else {
        tick_after(t, n - 1) + t[n - 1].delta()
    }
}

/// The tick a track ends at: that of its last event.
pub open spec fn last_tick(t: Seq<Event>) -> int {
    tick_after(t, t.len() as int)
}

pub open spec fn track_valid(t: Seq<Event>) -> bool {
    &&& forall|i: int|
        0 <= i < t.len() ==> (#[trigger] t[i]).valid(
            if i > 0 {
                t[i - 1].status()
            } else {
                0u8
            },
        )
    &&& track_bytes(t, t.len() as int).len() < 0x1_0000_0000
}

/// The tempo changes among the first `n` events, with their ticks.
pub open spec fn marks_in(t: Seq<Event>, n: int) -> Seq<(int, int)>
    decreases n,
{
    if n <= 0 {
        seq![]
    } else {
        match t[n - 1].tempo() {
            Some(x) => marks_in(t, n - 1).push((tick_after(t, n), x)),
            None => marks_in(t, n - 1),
        }
    }
}

/// The first time signature among the first `n` events.
pub open spec fn signature_in(t: Seq<Event>, n: int) -> Option<(int, int)>
    decreases n,
{
    if n <= 0 {
        None
    } else {
        match signature_in(t, n - 1) {
            Some(x) => Some(x),
            None => t[n - 1].signature(),
        }
    }
}

/// The tempo changes of the first `n` tracks, in the order of the file.
pub open spec fn marks(tracks: Seq<Seq<Event>>, n: int) -> Seq<(int, int)>
    decreases n,
{
    if n <= 0 {
        seq![]
    } else {
        marks(tracks, n - 1) + marks_in(tracks[n - 1], tracks[n - 1].len() as int)
    }
}

/// The first time signature of the first `n` tracks.
pub open spec fn signature(tracks: Seq<Seq<Event>>, n: int) -> Option<(int, int)>
    decreases n,
{
    if n <= 0 {
        None
    } else {
        match signature(tracks, n - 1) {
            Some(x) => Some(x),
            None => signature_in(tracks[n - 1], tracks[n - 1].len() as int),
        }
    }
}

/// True when `end` is the last tick of the longest track.
pub open spec fn is_end(tracks: Seq<Seq<Event>>, end: int) -> bool {
    &&& forall|i: int| 0 <= i < tracks.len() ==> last_tick(#[trigger] tracks[i]) <= end
    &&& end == 0 || exists|i: int| 0 <= i < tracks.len() && last_tick(#[trigger] tracks[i]) == end
}

/// The four bytes of a number, the highest first.
pub open spec fn four(n: int) -> Seq<u8> {
    seq![
        (n / 0x100_0000) as u8,
        (n / 0x1_0000 % 0x100) as u8,
        (n / 0x100 % 0x100) as u8,
        (n % 0x100) as u8,
    ]
}

/// A track as a chunk of a file.
pub open spec fn chunk(t: Seq<Event>) -> Seq<u8> {
    let b = track_bytes(t, t.len() as int);
    seq![0x4du8, 0x54u8, 0x72u8, 0x6bu8] + four(b.len() as int) + b
}

/// A file with a header of which `rest` holds the format and the number of
/// tracks, and the first `n` tracks.
pub open spec fn file(rest: Seq<u8>, division: int, tracks: Seq<Seq<Event>>, n: int) -> Seq<u8>
    decreases n,
{
    if n <= 0 {
        seq![0x4du8, 0x54u8, 0x68u8, 0x64u8] + rest + seq![
            (division / 0x100) as u8,
            (division % 0x100) as u8,
        ]
    } else {
        file(rest, division, tracks, n - 1) + chunk(tracks[n - 1])
    }
}

// --- how long it lasts ------------------------------------------------------

/// True when the change at `i` is the last one at or before the tick `t`; of
/// several at one tick, the last in the file.
pub open spec fn in_force(marks: Seq<(int, int)>, t: int, i: int) -> bool {
    &&& 0 <= i < marks.len()
    &&& marks[i].0 <= t
    &&& forall|j: int|
        0 <= j < marks.len() && (#[trigger] marks[j]).0 <= t ==> marks[j].0 < marks[i].0
            || marks[j].0 == marks[i].0 && j <= i
}

/// The microseconds per quarter note at a tick: 120 beats a minute before any
/// change.
pub open spec fn tempo_at(marks: Seq<(int, int)>, t: int) -> int {
    if exists|i: int| in_force(marks, t, i) {
        marks[choose|i: int| in_force(marks, t, i)].1
    } else {
        500_000
    }
}

/// The tempos of the ticks from `from` to `end`, added up.
pub open spec fn tempo_sum(marks: Seq<(int, int)>, from: int, end: int) -> int
    decreases end - from,
{
    if from >= end {
        0
    } else {
        tempo_at(marks, from) + tempo_sum(marks, from + 1, end)
    }
}

// --- reading numbers --------------------------------------------------------

/// True when `s` stands at `pos` in `d`.
spec fn stands(d: Seq<u8>, pos: int, s: Seq<u8>) -> bool {
    0 <= pos && pos + s.len() <= d.len() && forall|i: int|
        0 <= i < s.len() ==> d[pos + i] == #[trigger] s[i]
}

proof fn lemma_stands_parts(d: Seq<u8>, pos: int, a: Seq<u8>, b: Seq<u8>)
    requires
        stands(d, pos, a + b),
    ensures
        stands(d, pos, a),
        stands(d, pos + a.len(), b),
{
    let s = a + b;
    assert forall|i: int| 0 <= i < a.len() implies d[pos + i] == #[trigger] a[i] by {
        assert(s[i] == a[i]);
    }
    assert forall|i: int| 0 <= i < b.len() implies d[pos + a.len() + i] == #[trigger] b[i] by {
        assert(s[a.len() + i] == b[i]);
        assert(d[pos + (a.len() + i)] == s[a.len() + i]);
    }
}

proof fn lemma_heads(d: Seq<u8>, pos: int, m: nat)
    requires
        stands(d, pos, heads(m)),
        m < 0x1_0000_0000,
    ensures
        midi::varlen(d, pos, 0) == midi::varlen(d, pos + heads(m).len(), m as int),
    decreases m,
{
    if m > 0 {
        let q = m / 128;
        let h = heads(q);
        let n = h.len() as int;
        let x = (128 + m % 128) as u8;
        assert(stands(d, pos, h)) by {
            assert forall|i: int| 0 <= i < h.len() implies d[pos + i] == #[trigger] h[i] by {
                assert(heads(m)[i] == h[i]);
            }
        }
        lemma_heads(d, pos, q);
        assert(heads(m)[n] == x);
        assert(d[pos + n] == x);
        assert(x >= 128 && x % 128 == m % 128);
        assert(q * 128 + m % 128 == m);
    }
}

/// A number reads back as it was written.
proof fn lemma_quantity(d: Seq<u8>, pos: int, n: nat)
    requires
        stands(d, pos, quantity(n)),
        n < 0x1_0000_0000,
    ensures
        midi::varlen(d, pos, 0) == (n as int, pos + quantity(n).len()),
        quantity(n).len() > 0,
{
    let q = n / 128;
    let h = heads(q);
    let k = h.len() as int;
    assert(stands(d, pos, h)) by {
        assert forall|i: int| 0 <= i < h.len() implies d[pos + i] == #[trigger] h[i] by {
            assert(quantity(n)[i] == h[i]);
        }
    }
    lemma_heads(d, pos, q);
    let x = (n % 128) as u8;
    assert(quantity(n)[k] == x);
    assert(d[pos + k] == x);
    assert(x < 128 && x % 128 == n % 128);
    assert(q * 128 + n % 128 == n);
}

// --- reading events ---------------------------------------------------------

/// What is gathered once an event at `tick` was read.
spec fn with_event(g: Gathered, e: Event, tick: int) -> Gathered {
    Gathered {
        tempos: match e.tempo() {
            Some(x) => g.tempos.push((tick, x)),
            None => g.tempos,
        },
        ts: match g.ts {
            Some(x) => Some(x),
            None => e.signature(),
        },
        end_tick: g.end_tick,
    }
}

proof fn lemma_note_value(n: u8)
    ensures
        n < 8 ==> midi::note_value(n) == vstd::arithmetic::power::pow(2, n as nat),
        n >= 8 ==> midi::note_value(n) == 4,
{
    reveal(vstd::arithmetic::power::pow);
    if n < 8 {
        reveal_with_fuel(vstd::arithmetic::power::pow, 9);
    }
}

proof fn lemma_meta(g: Gathered, delta: nat, kind: u8, payload: Seq<u8>, tick: int)
    ensures
        g.meta(kind, payload, tick) == with_event(
            g,
            Event::Meta { delta, kind, payload },
            tick,
        ),
{
    if payload.len() >= 2 {
        lemma_note_value(payload[1]);
    }
    let e = Event::Meta { delta, kind, payload };
    assert(g.meta(kind, payload, tick) =~= with_event(g, e, tick));
}

/// Reading an event goes on after it.
proof fn lemma_read_event(d: Seq<u8>, pos: int, abs: int, running: u8, g: Gathered, e: Event)
    requires
        e.valid(running),
        stands(d, pos, e.bytes()),
    ensures
        midi::track(d, pos, abs, running, g) == midi::track(
            d,
            pos + e.bytes().len(),
            abs + e.delta(),
            e.status(),
            with_event(g, e, abs + e.delta()),
        ),
        e.bytes().len() > 0,
{
    let q = quantity(e.delta());
    let b = e.body();
    let tick = abs + e.delta();
    lemma_stands_parts(d, pos, q, b);
    lemma_quantity(d, pos, e.delta());
    let p1 = pos + q.len();
    assert(b.len() > 0);
    assert(d[p1 + 0] == b[0]);
    match e {
        Event::Channel { delta: _, status, data, bare } => {
            assert(with_event(g, e, tick) =~= g);
            if bare {
                assert(b[0] < 0x80);
            } else {
                assert(b[0] == status);
            }
        },
        Event::Meta { delta, kind, payload } => {
            let head = seq![0xffu8, kind];
            let n = quantity(payload.len());
            assert(b =~= head + (n + payload));
            lemma_stands_parts(d, p1, head, n + payload);
            lemma_stands_parts(d, p1 + 2, n, payload);
            assert(d[p1 + 1] == head[1]);
            lemma_quantity(d, p1 + 2, payload.len());
            let p4 = p1 + 2 + n.len();
            assert(d.subrange(p4, p4 + payload.len()) =~= payload);
            lemma_meta(g, delta, kind, payload, tick);
        },
        Event::Sysex { delta: _, status, payload } => {
            let head = seq![status];
            let n = quantity(payload.len());
            assert(b =~= head + (n + payload));
            lemma_stands_parts(d, p1, head, n + payload);
            lemma_stands_parts(d, p1 + 1, n, payload);
            lemma_quantity(d, p1 + 1, payload.len());
            assert(with_event(g, e, tick) =~= g);
        },
    }
}

/// What is gathered from the first `n` events.
spec fn after_events(g: Gathered, t: Seq<Event>, n: int) -> Gathered {
    Gathered {
        tempos: g.tempos + marks_in(t, n),
        ts: match g.ts {
            Some(x) => Some(x),
            None => signature_in(t, n),
        },
        end_tick: g.end_tick,
    }
}

spec fn status_before(t: Seq<Event>, n: int) -> u8 {
    if n > 0 {
        t[n - 1].status()
    } else {
        0
    }
}

proof fn lemma_bytes_grow(t: Seq<Event>, n: int)
    requires
        0 <= n <= t.len(),
    ensures
        stands(track_bytes(t, t.len() as int), 0, track_bytes(t, n)),
        n < t.len() ==> stands(
            track_bytes(t, t.len() as int),
            track_bytes(t, n).len() as int,
            t[n].bytes(),
        ),
    decreases t.len() - n,
{
    let d = track_bytes(t, t.len() as int);
    if n < t.len() {
        lemma_bytes_grow(t, n + 1);
        lemma_stands_parts(d, 0, track_bytes(t, n), t[n].bytes());
    }
}

/// Reading a track's first events.
proof fn lemma_read_events(t: Seq<Event>, n: int, g: Gathered)
    requires
        track_valid(t),
        0 <= n <= t.len(),
    ensures
        ({
            let d = track_bytes(t, t.len() as int);
            midi::track(d, 0, 0, 0, g) == midi::track(
                d,
                track_bytes(t, n).len() as int,
                tick_after(t, n),
                status_before(t, n),
                after_events(g, t, n),
            )
        }),
    decreases n,
{
    let d = track_bytes(t, t.len() as int);
    if n == 0 {
        assert(after_events(g, t, 0) =~= g);
    } else {
        lemma_read_events(t, n - 1, g);
        lemma_bytes_grow(t, n - 1);
        let e = t[n - 1];
        let pos = track_bytes(t, n - 1).len() as int;
        let tick = tick_after(t, n - 1);
        assert(t[n - 1].valid(status_before(t, n - 1)));
        lemma_read_event(d, pos, tick, status_before(t, n - 1), after_events(g, t, n - 1), e);
        assert(with_event(after_events(g, t, n - 1), e, tick + e.delta()) =~= after_events(g, t, n));
    }
}

proof fn lemma_tick_grows(t: Seq<Event>, n: int)
    ensures
        tick_after(t, n) >= 0,
    decreases n,
{
    if n > 0 {
        lemma_tick_grows(t, n - 1);
    }
}

/// Reading a whole track: its tempo changes join those before it, its time
/// signature counts when none came before, and its last tick when none was
/// later.
proof fn lemma_read_track(t: Seq<Event>, g: Gathered)
    requires
        track_valid(t),
    ensures
        ({
            let d = track_bytes(t, t.len() as int);
            let r = midi::track(d, 0, 0, 0, g);
            let e = last_tick(t);
            &&& r.tempos == g.tempos + marks_in(t, t.len() as int)
            &&& r.ts == match g.ts {
                Some(x) => Some(x),
                None => signature_in(t, t.len() as int),
            }
            &&& r.end_tick == if e > g.end_tick {
                e
            } else {
                g.end_tick
            }
        }),
{
    lemma_read_events(t, t.len() as int, g);
}

// --- reading files ----------------------------------------------------------

proof fn lemma_four(n: int)
    requires
        0 <= n < 0x1_0000_0000,
    ensures
        midi::be32(four(n), 0) == n,
{
}

/// The longest of the first `n` tracks.
spec fn longest(tracks: Seq<Seq<Event>>, n: int) -> int
    decreases n,
{
    if n <= 0 {
        0
    } else {
        let e = last_tick(tracks[n - 1]);
        let m = longest(tracks, n - 1);
        if e > m {
            e
        } else {
            m
        }
    }
}

proof fn lemma_longest(tracks: Seq<Seq<Event>>, n: int)
    requires
        0 <= n <= tracks.len(),
    ensures
        forall|i: int| 0 <= i < n ==> last_tick(#[trigger] tracks[i]) <= longest(tracks, n),
        longest(tracks, n) == 0 || exists|i: int|
            0 <= i < n && last_tick(#[trigger] tracks[i]) == longest(tracks, n),
        longest(tracks, n) >= 0,
    decreases n,
{
    if n > 0 {
        lemma_longest(tracks, n - 1);
        let m = longest(tracks, n - 1);
        let e = last_tick(tracks[n - 1]);
        if e > m {
            assert(last_tick(tracks[n - 1]) == longest(tracks, n));
        } else if m != 0 {
            let i = choose|i: int| 0 <= i < n - 1 && last_tick(#[trigger] tracks[i]) == m;
            assert(last_tick(tracks[i]) == longest(tracks, n));
        }
    }
}

spec fn after_tracks(tracks: Seq<Seq<Event>>, n: int) -> Gathered {
    Gathered { tempos: marks(tracks, n), ts: signature(tracks, n), end_tick: longest(tracks, n) }
}

proof fn lemma_file_grows(rest: Seq<u8>, division: int, tracks: Seq<Seq<Event>>, n: int)
    requires
        0 <= n <= tracks.len(),
    ensures
        stands(
            file(rest, division, tracks, tracks.len() as int),
            0,
            file(rest, division, tracks, n),
        ),
        n < tracks.len() ==> stands(
            file(rest, division, tracks, tracks.len() as int),
            file(rest, division, tracks, n).len() as int,
            chunk(tracks[n]),
        ),
    decreases tracks.len() - n,
{
    let d = file(rest, division, tracks, tracks.len() as int);
    if n < tracks.len() {
        lemma_file_grows(rest, division, tracks, n + 1);
        lemma_stands_parts(d, 0, file(rest, division, tracks, n), chunk(tracks[n]));
    }
}

proof fn lemma_file_len(rest: Seq<u8>, division: int, tracks: Seq<Seq<Event>>, n: int)
    requires
        rest.len() == 8,
    ensures
        file(rest, division, tracks, n).len() >= 14,
        file(rest, division, tracks, 0).len() == 14,
    decreases n,
{
    if n > 0 {
        lemma_file_len(rest, division, tracks, n - 1);
    }
}

/// Reading the chunk of a track goes on after it.
proof fn lemma_read_chunk(d: Seq<u8>, pos: int, t: Seq<Event>, g: Gathered)
    requires
        track_valid(t),
        stands(d, pos, chunk(t)),
    ensures
        midi::chunks(d, pos, g) == midi::chunks(
            d,
            pos + chunk(t).len(),
            midi::track(track_bytes(t, t.len() as int), 0, 0, 0, g),
        ),
{
    let b = track_bytes(t, t.len() as int);
    let id = seq![0x4du8, 0x54u8, 0x72u8, 0x6bu8];
    let f = four(b.len() as int);
    assert(chunk(t) =~= id + (f + b));
    lemma_stands_parts(d, pos, id, f + b);
    lemma_stands_parts(d, pos + 4, f, b);
    lemma_four(b.len() as int);
    assert(d[pos + 4 + 0] == f[0]);
    assert(d[pos + 4 + 1] == f[1]);
    assert(d[pos + 4 + 2] == f[2]);
    assert(d[pos + 4 + 3] == f[3]);
    assert(midi::be32(d, pos + 4) == b.len());
    assert(d.subrange(pos, pos + 4) =~= id);
    assert(d.subrange(pos + 8, pos + 8 + b.len()) =~= b);
}

proof fn lemma_read_chunks(rest: Seq<u8>, division: int, tracks: Seq<Seq<Event>>, n: int)
    requires
        rest.len() == 8,
        forall|i: int| 0 <= i < tracks.len() ==> track_valid(#[trigger] tracks[i]),
        0 <= n <= tracks.len(),
    ensures
        ({
            let d = file(rest, division, tracks, tracks.len() as int);
            midi::gathered(d) == midi::chunks(
                d,
                file(rest, division, tracks, n).len() as int,
                after_tracks(tracks, n),
            )
        }),
    decreases n,
{
    let d = file(rest, division, tracks, tracks.len() as int);
    lemma_file_len(rest, division, tracks, n);
    if n == 0 {
        assert(after_tracks(tracks, 0) =~= Gathered { tempos: seq![], end_tick: 0, ts: None });
    } else {
        lemma_read_chunks(rest, division, tracks, n - 1);
        lemma_file_len(rest, division, tracks, n - 1);
        lemma_file_grows(rest, division, tracks, n - 1);
        let pos = file(rest, division, tracks, n - 1).len() as int;
        let t = tracks[n - 1];
        let b = track_bytes(t, t.len() as int);
        assert(track_valid(tracks[n - 1]));
        lemma_read_chunk(d, pos, t, after_tracks(tracks, n - 1));
        lemma_read_track(t, after_tracks(tracks, n - 1));
        assert(midi::track(b, 0, 0, 0, after_tracks(tracks, n - 1)) =~= after_tracks(tracks, n));
    }
}

proof fn lemma_read_header(rest: Seq<u8>, division: int, tracks: Seq<Seq<Event>>)
    requires
        rest.len() == 8,
        0 <= division < 0x1_0000,
    ensures
        ({
            let d = file(rest, division, tracks, tracks.len() as int);
            midi::has_header(d) && midi::be16(d, 12) == division
        }),
{
    let n = tracks.len() as int;
    let d = file(rest, division, tracks, n);
    lemma_file_len(rest, division, tracks, n);
    lemma_file_grows(rest, division, tracks, 0);
    let h = file(rest, division, tracks, 0);
    assert(h.len() == 14);
    assert(h[12] == (division / 0x100) as u8);
    assert(h[13] == (division % 0x100) as u8);
    assert(d[0int + 12] == h[12]);
    assert(d[0int + 13] == h[13]);
    assert(d[0int + 0] == h[0] && h[0] == 0x4d);
    assert(d[0int + 1] == h[1] && h[1] == 0x54);
    assert(d[0int + 2] == h[2] && h[2] == 0x68);
    assert(d[0int + 3] == h[3] && h[3] == 0x64);
    assert(d.take(4) =~= midi::header_id());
}

/// A file reads as what was written to it: the tempo changes of all tracks with
/// their ticks, the last tick of the longest track whatever the order of the
/// tracks, and the first time signature.
pub proof fn lemma_written_file(rest: Seq<u8>, division: int, tracks: Seq<Seq<Event>>)
    requires
        rest.len() == 8,
        0 <= division < 0x1_0000,
        forall|i: int| 0 <= i < tracks.len() ==> track_valid(#[trigger] tracks[i]),
    ensures
        ({
            let n = tracks.len() as int;
            let d = file(rest, division, tracks, n);
            let g = midi::gathered(d);
            &&& midi::parsed(d) is Some
            &&& g.tempos == marks(tracks, n)
            &&& is_end(tracks, g.end_tick)
            &&& g.ts == signature(tracks, n)
            &&& midi::division(d) == if division < 0x8000 {
                division
            } else {
                0
            }
        }),
{
    let n = tracks.len() as int;
    let d = file(rest, division, tracks, n);
    lemma_read_chunks(rest, division, tracks, n);
    lemma_longest(tracks, n);
    lemma_read_header(rest, division, tracks);
    assert(midi::chunks(d, d.len() as int, after_tracks(tracks, n)) == after_tracks(tracks, n));
}

// --- any bytes --------------------------------------------------------------

/// Nothing gathered.
pub open spec fn nothing() -> Gathered {
    Gathered { tempos: seq![], end_tick: 0, ts: None }
}

/// What one track holds.
pub open spec fn track_alone(b: Seq<u8>) -> Gathered {
    midi::track(b, 0, 0, 0, nothing())
}

spec fn marks_within(v: Seq<(int, int)>, lo: int, hi: int) -> bool {
    forall|i: int|
        0 <= i < v.len() ==> lo <= (#[trigger] v[i]).0 <= hi && 0 <= v[i].1 < 0x100_0000
}

/// How what is gathered from a track joins what was gathered before it.
spec fn joins(r: Gathered, g: Gathered, alone: Gathered) -> bool {
    &&& r.tempos == g.tempos + alone.tempos
    &&& r.end_tick == if alone.end_tick > g.end_tick {
        alone.end_tick
    } else {
        g.end_tick
    }
    &&& r.ts == match g.ts {
        Some(x) => Some(x),
        None => alone.ts,
    }
}

proof fn lemma_meta_joins(g: Gathered, kind: u8, payload: Seq<u8>, tick: int)
    ensures
        ({
            let m = nothing().meta(kind, payload, tick);
            let r = g.meta(kind, payload, tick);
            &&& r.tempos == g.tempos + m.tempos
            &&& r.end_tick == g.end_tick
            &&& m.end_tick == 0
            &&& r.ts == match g.ts {
                Some(x) => Some(x),
                None => m.ts,
            }
            &&& marks_within(m.tempos, tick, tick)
        }),
{
    let m = nothing().meta(kind, payload, tick);
    assert(g.meta(kind, payload, tick).tempos =~= g.tempos + m.tempos);
}

proof fn lemma_within_append(a: Seq<(int, int)>, b: Seq<(int, int)>, lo: int, hi: int)
    requires
        marks_within(a, lo, hi),
        marks_within(b, lo, hi),
    ensures
        marks_within(a + b, lo, hi),
{
    let v = a + b;
    assert forall|i: int| 0 <= i < v.len() implies lo <= (#[trigger] v[i]).0 <= hi && 0 <= v[i].1
        < 0x100_0000 by {
        if i < a.len() {
            assert(v[i] == a[i]);
        } else {
            assert(v[i] == b[i - a.len()]);
        }
    }
}

/// What a track adds does not depend on what came before it, and its tempo
/// changes are not after its end.
proof fn lemma_track_joins(d: Seq<u8>, pos: int, abs: int, running: u8, g: Gathered)
    requires
        0 <= abs,
        0 <= pos,
        0 <= g.end_tick,
    ensures
        ({
            let alone = midi::track(d, pos, abs, running, nothing());
            &&& joins(midi::track(d, pos, abs, running, g), g, alone)
            &&& abs <= alone.end_tick <= abs + if pos < d.len() {
                (d.len() - pos) * 0x1_0000_0000
            } else {
                0
            }
            &&& marks_within(alone.tempos, abs, alone.end_tick)
        }),
    decreases
            if pos < d.len() {
                d.len() - pos
            } else {
                0
            },
{
    let alone = midi::track(d, pos, abs, running, nothing());
    let r = midi::track(d, pos, abs, running, g);
    let none = Seq::<(int, int)>::empty();
    assert(g.tempos + none =~= g.tempos);
    if pos < d.len() {
        midi::lemma_varlen(d, pos, 0);
        let (delta, p1) = midi::varlen(d, pos, 0);
        let tick = abs + delta;
        assert((d.len() - pos) * 0x1_0000_0000 >= 0x1_0000_0000);
        if p1 < d.len() {
            let (status, p2) = if d[p1] < 0x80 {
                (running, p1)
            } else {
                (d[p1], p1 + 1)
            };
            if status == 0xff {
                if p2 < d.len() {
                    midi::lemma_varlen(d, p2 + 1, 0);
                    let (n, p4) = midi::varlen(d, p2 + 1, 0);
                    let e = midi::least(p4 + n, d.len() as int);
                    let kind = d[p2];
                    let payload = d.subrange(p4, e);
                    let m = nothing().meta(kind, payload, tick);
                    let h = g.meta(kind, payload, tick);
                    lemma_meta_joins(g, kind, payload, tick);
                    lemma_track_joins(d, e, tick, status, h);
                    lemma_track_joins(d, e, tick, status, m);
                    let rest = midi::track(d, e, tick, status, nothing());
                    assert(alone.tempos == m.tempos + rest.tempos);
                    assert(r.tempos =~= g.tempos + alone.tempos);
                    assert(marks_within(m.tempos, abs, alone.end_tick));
                    assert(marks_within(rest.tempos, abs, alone.end_tick));
                    lemma_within_append(m.tempos, rest.tempos, abs, alone.end_tick);
                }
            } else if status == 0xf0 || status == 0xf7 {
                midi::lemma_varlen(d, p2, 0);
                let (n, p3) = midi::varlen(d, p2, 0);
                lemma_track_joins(d, midi::least(p3 + n, d.len() as int), tick, status, g);
            } else {
                lemma_track_joins(d, p2 + midi::data_bytes(status), tick, status, g);
            }
        }
    }
}

/// Where the chunks of a file start, from `pos` on.
pub open spec fn chunk_starts(d: Seq<u8>, pos: int) -> Seq<int>
    decreases d.len() - pos,
    via chunk_starts_decreases
{
    if pos < 0 || pos + 8 > d.len() {
        seq![]
    } else {
        seq![pos] + chunk_starts(d, chunk_end(d, pos))
    }
}

#[via_fn]
proof fn chunk_starts_decreases(d: Seq<u8>, pos: int) {
}

/// Where the chunk at `pos` ends: after as many bytes as it says, but not past
/// the end of the file.
pub open spec fn chunk_end(d: Seq<u8>, pos: int) -> int {
    let n = ((d[pos + 4] * 256 + d[pos + 5]) * 256 + d[pos + 6]) * 256 + d[pos + 7];
    if pos + 8 + n < d.len() {
        pos + 8 + n
    } else {
        d.len() as int
    }
}

/// True for the start of a track's chunk: "MTrk".
pub open spec fn is_track(d: Seq<u8>, pos: int) -> bool {
    d[pos] == 0x4d && d[pos + 1] == 0x54 && d[pos + 2] == 0x72 && d[pos + 3] == 0x6b
}

/// The bytes of the chunk at `pos`.
pub open spec fn chunk_body(d: Seq<u8>, pos: int) -> Seq<u8> {
    d.subrange(pos + 8, chunk_end(d, pos))
}

proof fn lemma_starts(d: Seq<u8>, pos: int, g: Gathered)
    requires
        0 <= pos,
        0 <= g.end_tick,
    ensures
        ({
            let v = chunk_starts(d, pos);
            let r = midi::chunks(d, pos, g);
            &&& r.end_tick >= g.end_tick
            &&& forall|i: int|
                0 <= i < v.len() && is_track(d, #[trigger] v[i]) ==> track_alone(
                    chunk_body(d, v[i]),
                ).end_tick <= r.end_tick
            &&& r.end_tick == g.end_tick || exists|i: int|
                0 <= i < v.len() && is_track(d, #[trigger] v[i]) && track_alone(
                    chunk_body(d, v[i]),
                ).end_tick == r.end_tick
        }),
    decreases d.len() - pos,
{
    if pos + 8 <= d.len() {
        let e = chunk_end(d, pos);
        let t = d.subrange(pos, pos + 4);
        assert(t[0] == d[pos] && t[1] == d[pos + 1] && t[2] == d[pos + 2] && t[3] == d[pos + 3]);
        assert(is_track(d, pos) == (t == midi::track_id())) by {
            if is_track(d, pos) {
                assert(t =~= midi::track_id());
            }
        }
        let b = chunk_body(d, pos);
        let h = if is_track(d, pos) {
            midi::track(b, 0, 0, 0, g)
        } else {
            g
        };
        lemma_track_joins(b, 0, 0, 0, g);
        lemma_starts(d, e, h);
        let v = chunk_starts(d, pos);
        let w = chunk_starts(d, e);
        let r = midi::chunks(d, pos, g);
        assert(r == midi::chunks(d, e, h));
        assert forall|i: int| 0 <= i < v.len() && is_track(d, #[trigger] v[i]) implies track_alone(
            chunk_body(d, v[i]),
        ).end_tick <= r.end_tick by {
            if i > 0 {
                assert(v[i] == w[i - 1]);
            }
        }
        if r.end_tick != g.end_tick {
            if r.end_tick == h.end_tick {
                assert(v[0] == pos);
            } else {
                let i = choose|i: int|
                    0 <= i < w.len() && is_track(d, #[trigger] w[i]) && track_alone(
                        chunk_body(d, w[i]),
                    ).end_tick == r.end_tick;
                assert(v[i + 1] == w[i]);
            }
        }
    }
}

/// The end of a file is the last tick of the longest track in it: none of its
/// tracks ends later, and one of them ends there, wherever it stands in the
/// file. Without a track it is 0.
pub proof fn lemma_end_of_the_longest_track(d: Seq<u8>)
    ensures
        ({
            let v = chunk_starts(d, 14);
            let end = midi::gathered(d).end_tick;
            &&& forall|i: int|
                0 <= i < v.len() && is_track(d, #[trigger] v[i]) ==> track_alone(
                    chunk_body(d, v[i]),
                ).end_tick <= end
            &&& end == 0 || exists|i: int|
                0 <= i < v.len() && is_track(d, #[trigger] v[i]) && track_alone(
                    chunk_body(d, v[i]),
                ).end_tick == end
        }),
{
    lemma_starts(d, 14, nothing());
}

proof fn lemma_chunks_within(d: Seq<u8>, pos: int, g: Gathered)
    requires
        0 <= pos,
        0 <= g.end_tick <= d.len() * 0x1_0000_0000,
        marks_within(g.tempos, 0, g.end_tick),
    ensures
        ({
            let r = midi::chunks(d, pos, g);
            0 <= r.end_tick <= d.len() * 0x1_0000_0000 && marks_within(r.tempos, 0, r.end_tick)
        }),
    decreases d.len() - pos,
{
    if pos + 8 <= d.len() {
        let e = midi::least(pos + 8 + midi::be32(d, pos + 4), d.len() as int);
        let b = d.subrange(pos + 8, e);
        let is = d.subrange(pos, pos + 4) == midi::track_id();
        let h = if is {
            midi::track(b, 0, 0, 0, g)
        } else {
            g
        };
        lemma_track_joins(b, 0, 0, 0, g);
        if is {
            let alone = track_alone(b);
            assert(marks_within(g.tempos, 0, h.end_tick));
            assert(marks_within(alone.tempos, 0, h.end_tick));
            lemma_within_append(g.tempos, alone.tempos, 0, h.end_tick);
        }
        lemma_chunks_within(d, e, h);
    }
}

// --- the length -------------------------------------------------------------

proof fn lemma_in_force_unique(marks: Seq<(int, int)>, t: int, i: int)
    requires
        in_force(marks, t, i),
    ensures
        tempo_at(marks, t) == marks[i].1,
{
    let j = choose|j: int| in_force(marks, t, j);
    assert(in_force(marks, t, j));
    assert(marks[j].0 <= t && marks[i].0 <= t);
}

proof fn lemma_sum_const(marks: Seq<(int, int)>, from: int, to: int, end: int, c: int)
    requires
        from <= to <= end,
        forall|t: int| from <= t < to ==> #[trigger] tempo_at(marks, t) == c,
    ensures
        tempo_sum(marks, from, end) == (to - from) * c + tempo_sum(marks, to, end),
    decreases to - from,
{
    if from < to {
        lemma_sum_const(marks, from + 1, to, end, c);
        assert(tempo_at(marks, from) == c);
        assert((to - from) * c == c + (to - (from + 1)) * c) by (nonlinear_arith);
    } else {
        assert((to - from) * c == 0) by (nonlinear_arith)
            requires
                to == from,
        ;
    }
}

/// The positions of the changes by their ticks.
spec fn order_of(marks: Seq<(int, int)>) -> Seq<int> {
    sorting::order(sorting::number_keys(marks.map_values(|t: (int, int)| t.0)))
}

proof fn lemma_tick_order(marks: Seq<(int, int)>)
    ensures
        ({
            let p = order_of(marks);
            let s = midi::by_tick(marks);
            &&& s.len() == marks.len()
            &&& p.len() == marks.len()
            &&& forall|k: int|
                0 <= k < s.len() ==> 0 <= #[trigger] p[k] < marks.len() && s[k] == marks[p[k]]
            &&& forall|a: int, b: int|
                0 <= a < b < s.len() ==> marks[#[trigger] p[a]].0 < marks[#[trigger] p[b]].0
                    || marks[p[a]].0 == marks[p[b]].0 && p[a] < p[b]
            &&& forall|i: int| 0 <= i < marks.len() ==> #[trigger] p.contains(i)
        }),
{
    let ticks = marks.map_values(|t: (int, int)| t.0);
    let keys = sorting::number_keys(ticks);
    let p = order_of(marks);
    sorting::lemma_order_exists(keys);
    assert forall|a: int, b: int| 0 <= a < b < p.len() implies marks[#[trigger] p[a]].0 < marks[
    #[trigger] p[b]].0 || marks[p[a]].0 == marks[p[b]].0 && p[a] < p[b] by {
        assert(sorting::before(keys, p[a], p[b]));
        reveal_with_fuel(sorting::key_less, 2);
        assert(keys[p[a]] == seq![ticks[p[a]]]);
        assert(keys[p[b]] == seq![ticks[p[b]]]);
        assert(keys[p[a]][0] == marks[p[a]].0);
        assert(keys[p[b]][0] == marks[p[b]].0);
    }
}

/// Between a change and the next one, its tempo is in force.
proof fn lemma_between(marks: Seq<(int, int)>, k: int, t: int)
    requires
        0 <= k <= marks.len(),
        k > 0 ==> midi::by_tick(marks)[k - 1].0 <= t,
        k < marks.len() ==> t < midi::by_tick(marks)[k].0,
    ensures
        tempo_at(marks, t) == if k > 0 {
            midi::by_tick(marks)[k - 1].1
        } else {
            500_000
        },
{
    lemma_tick_order(marks);
    let p = order_of(marks);
    let s = midi::by_tick(marks);
    assert forall|j: int| 0 <= j < marks.len() && (#[trigger] marks[j]).0 <= t implies k > 0 && (
    marks[j].0 < s[k - 1].0 || marks[j].0 == s[k - 1].0 && j <= p[k - 1]) by {
        assert(p.contains(j));
        let x = choose|x: int| 0 <= x < p.len() && p[x] == j;
        if x >= k {
            assert(s[x].0 >= s[k].0) by {
                if x > k {
                    assert(marks[p[k]].0 <= marks[p[x]].0);
                }
            }
        } else if x < k - 1 {
            assert(marks[p[x]].0 <= marks[p[k - 1]].0);
        }
    }
    if k > 0 {
        assert(in_force(marks, t, p[k - 1]));
        lemma_in_force_unique(marks, t, p[k - 1]);
    } else {
        assert forall|i: int| !in_force(marks, t, i) by {
            if in_force(marks, t, i) {
                assert(marks[i].0 <= t);
            }
        }
    }
}

proof fn lemma_span_from(marks: Seq<(int, int)>, end: int, k: int)
    requires
        marks_within(marks, 0, end),
        0 <= end,
        0 <= k <= marks.len(),
    ensures
        ({
            let s = midi::by_tick(marks);
            let prev = if k > 0 {
                s[k - 1].0
            } else {
                0
            };
            let cur = if k > 0 {
                s[k - 1].1
            } else {
                500_000
            };
            midi::span(s.skip(k), end, prev, cur) == tempo_sum(marks, prev, end)
        }),
    decreases marks.len() - k,
{
    lemma_tick_order(marks);
    let p = order_of(marks);
    let s = midi::by_tick(marks);
    let prev = if k > 0 {
        s[k - 1].0
    } else {
        0
    };
    let cur = if k > 0 {
        s[k - 1].1
    } else {
        500_000
    };
    if k > 0 {
        assert(s[k - 1] == marks[p[k - 1]]);
    }
    let next = if k < marks.len() {
        s[k].0
    } else {
        end
    };
    if k < marks.len() {
        assert(s[k] == marks[p[k]]);
        if k > 0 {
            assert(marks[p[k - 1]].0 <= marks[p[k]].0);
        }
    }
    assert forall|t: int| prev <= t < next implies #[trigger] tempo_at(marks, t) == cur by {
        lemma_between(marks, k, t);
    }
    lemma_sum_const(marks, prev, next, end, cur);
    if k < marks.len() {
        lemma_span_from(marks, end, k + 1);
        assert(s.skip(k)[0] == s[k]);
        assert(s.skip(k).drop_first() =~= s.skip(k + 1));
        if next <= prev {
            assert((next - prev) * cur == 0) by (nonlinear_arith)
                requires
                    next == prev,
            ;
        }
    } else {
        assert(s.skip(k).len() == 0);
        if end <= prev {
            assert((next - prev) * cur == 0) by (nonlinear_arith)
                requires
                    next == prev,
            ;
        }
    }
}

proof fn lemma_sum_bound(marks: Seq<(int, int)>, from: int, end: int)
    requires
        marks_within(marks, 0, end),
    ensures
        0 <= tempo_sum(marks, from, end),
        from <= end ==> tempo_sum(marks, from, end) <= (end - from) * 0x100_0000,
    decreases end - from,
{
    if from < end {
        lemma_sum_bound(marks, from + 1, end);
        if exists|i: int| in_force(marks, from, i) {
            let i = choose|i: int| in_force(marks, from, i);
            assert(0 <= marks[i].1 < 0x100_0000);
        }
    }
}

/// A file lasts as long as its ticks take, from the first to the last of the
/// longest track, each at the tempo in force at it. A quarter note has as many
/// ticks as the header says, and without that the length is not known.
pub proof fn lemma_length(d: Seq<u8>)
    requires
        d.len() <= usize::MAX,
        midi::has_header(d),
    ensures
        midi::parsed(d) matches Some(i) && {
            let g = midi::gathered(d);
            let division = d[12] * 256 + d[13];
            if 0 < division < 0x8000 {
                &&& i.division == division
                &&& i.length.num == tempo_sum(g.tempos, 0, g.end_tick)
                &&& i.length.den == division * 1_000_000
            } else {
                i.division == 0 && i.length.num == 0 && i.length.den == 0
            }
        },
{
    let g = midi::gathered(d);
    lemma_chunks_within(d, 14, nothing());
    lemma_span_from(g.tempos, g.end_tick, 0);
    let s = midi::by_tick(g.tempos);
    assert(s.skip(0) =~= s);
    lemma_sum_bound(g.tempos, 0, g.end_tick);
    assert(d.len() * 0x1_0000_0000 <= 0x1_0000_0000_0000_0000_0000_0000);
    assert(g.end_tick * 0x100_0000 <= 0x1_0000_0000_0000_0000_0000_0000 * 0x100_0000);
}

/// What is said of a file that was written: its length, its division and its
/// time signature, four quarters if it has none.
pub proof fn lemma_written_info(rest: Seq<u8>, division: int, tracks: Seq<Seq<Event>>) -> (end: int)
    requires
        rest.len() == 8,
        0 < division < 0x8000,
        forall|i: int| 0 <= i < tracks.len() ==> track_valid(#[trigger] tracks[i]),
        file(rest, division, tracks, tracks.len() as int).len() <= usize::MAX,
    ensures
        is_end(tracks, end),
        midi::parsed(file(rest, division, tracks, tracks.len() as int)) matches Some(i) && {
            let n = tracks.len() as int;
            &&& i.division == division
            &&& i.length.num == tempo_sum(marks(tracks, n), 0, end)
            &&& i.length.den == division * 1_000_000
            &&& match signature(tracks, n) {
                Some((num, den)) => i.ts_num == num && i.ts_den == den,
                None => i.ts_num == 4 && i.ts_den == 4,
            }
        },
{
    let n = tracks.len() as int;
    let d = file(rest, division, tracks, n);
    lemma_written_file(rest, division, tracks);
    lemma_read_header(rest, division, tracks);
    lemma_length(d);
    lemma_signature_small(tracks, n);
    midi::gathered(d).end_tick
}

proof fn lemma_signature_small(tracks: Seq<Seq<Event>>, n: int)
    ensures
        signature(tracks, n) matches Some((num, den)) ==> 0 <= num < 256 && 0 <= den < 256,
    decreases n,
{
    if n > 0 {
        lemma_signature_small(tracks, n - 1);
        lemma_signature_in_small(tracks[n - 1], tracks[n - 1].len() as int);
    }
}

proof fn lemma_signature_in_small(t: Seq<Event>, n: int)
    ensures
        signature_in(t, n) matches Some((num, den)) ==> 0 <= num < 256 && 0 <= den < 256,
    decreases n,
{
    if n > 0 {
        lemma_signature_in_small(t, n - 1);
        match t[n - 1] {
            Event::Meta { delta: _, kind: _, payload } => {
                if payload.len() >= 2 {
                    lemma_note_value(payload[1]);
                }
            },
            _ => {},
        }
    }
}

} // verus!
