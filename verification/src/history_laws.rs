//! What holds of the playing history as a whole.

use crate::ascii;
use crate::calendar;
use crate::conf;
use crate::history;
use crate::history::{EntryView, Reading, View};
use crate::sorting;
use crate::text;
use crate::vfs;
use crate::vfs::{FileKind, LocView};
use vstd::prelude::*;
use vstd::view::View as _;

verus! {

// --- recording --------------------------------------------------------------

/// The record on top of the others, before they are sorted by time.
spec fn on_top(
    s: Seq<EntryView>,
    midi: Option<LocView>,
    soundfont: Option<LocView>,
    now: u64,
    count: bool,
) -> Seq<EntryView> {
    let i = history::find_pair(s, (vfs::opt_key(midi), vfs::opt_key(soundfont)));
    if i < s.len() {
        let plays = if count { history::add_plays(s[i].plays, 1) } else { s[i].plays };
        seq![EntryView { when: now, plays, ..s[i] }] + s.remove(i)
    } else {
        seq![EntryView { midi, soundfont, when: now, plays: 1 }] + s
    }
}

/// Recording a play leaves the log newest first with one record per
/// combination, keeps every other record as it was, and gives the combination
/// the time of the play. A play that counts adds one; a first play is one.
pub proof fn lemma_record(
    s: Seq<EntryView>,
    midi: Option<LocView>,
    soundfont: Option<LocView>,
    now: u64,
    count: bool,
)
    requires
        history::distinct_pairs(s),
    ensures
        ({
            let k = (vfs::opt_key(midi), vfs::opt_key(soundfont));
            let t = history::recorded(s, midi, soundfont, now, count);
            let i = history::find_pair(s, k);
            let j = history::find_pair(t, k);
            &&& history::is_newest_first(t)
            &&& history::distinct_pairs(t)
            &&& t.len() == if i < s.len() { s.len() } else { s.len() + 1 }
            &&& j < t.len() && t[j].when == now
            &&& t[j].plays == if i >= s.len() {
                1
            } else if count {
                history::add_plays(s[i].plays, 1)
            } else {
                s[i].plays
            }
            &&& forall|e: EntryView| e.key() != k ==> #[trigger] t.contains(e) == s.contains(e)
        }),
{
    let k = (vfs::opt_key(midi), vfs::opt_key(soundfont));
    let t = history::recorded(s, midi, soundfont, now, count);
    let u = on_top(s, midi, soundfont, now, count);
    let i = history::find_pair(s, k);
    history::lemma_find_pair(s, k);
    assert(t == history::newest_first(u));
    history::lemma_newest_first(u);
    sorting::lemma_reorder(u, history::when_keys(u));
    let p = sorting::order(history::when_keys(u));
    sorting::lemma_order_exists(history::when_keys(u));
    assert(u[0].key() == k);
    assert forall|a: int, b: int| 0 <= a < u.len() && 0 <= b < u.len() && a != b implies (
    #[trigger] u[a]).key() != (#[trigger] u[b]).key() by {
        let a2 = if a == 0 {
            i
        } else if i < s.len() && a - 1 >= i {
            a
        } else {
            a - 1
        };
        let b2 = if b == 0 {
            i
        } else if i < s.len() && b - 1 >= i {
            b
        } else {
            b - 1
        };
        if a > 0 {
            assert(u[a] == s[a2]);
        }
        if b > 0 {
            assert(u[b] == s[b2]);
        }
        if a > 0 && b > 0 {
            assert(a2 != b2);
            assert(s[a2].key() != s[b2].key());
        } else if a > 0 {
            if i < s.len() {
                assert(s[a2].key() != s[i].key());
            } else {
                assert(s[a2].key() != k);
            }
        } else {
            if i < s.len() {
                assert(s[b2].key() != s[i].key());
            } else {
                assert(s[b2].key() != k);
            }
        }
    }
    assert forall|a: int, b: int| 0 <= a < b < t.len() implies (#[trigger] t[a]).key() != (
    #[trigger] t[b]).key() by {
        assert(p[a] != p[b]);
        assert(t[a] == u[p[a]] && t[b] == u[p[b]]);
    }
    // Where the record itself ended up.
    assert(p.contains(0));
    let q = choose|q: int| 0 <= q < p.len() && p[q] == 0;
    assert(t[q] == u[0]);
    assert forall|a: int| 0 <= a < q implies (#[trigger] t[a]).key() != k by {
        assert(t[a].key() != t[q].key());
    }
    history::lemma_find_pair_is(t, k, q);
    assert forall|e: EntryView| e.key() != k implies #[trigger] t.contains(e) == s.contains(e) by {
        assert(t.contains(e) == u.contains(e));
        if u.contains(e) {
            let a = choose|a: int| 0 <= a < u.len() && u[a] == e;
            assert(a > 0);
            let a2 = if i < s.len() && a - 1 >= i { a } else { a - 1 };
            assert(u[a] == s[a2]);
        }
        if s.contains(e) {
            let a = choose|a: int| 0 <= a < s.len() && s[a] == e;
            let a2 = if i < s.len() && a > i { a } else { a + 1 };
            assert(a != i);
            assert(u[a2] == s[a]);
        }
    }
}

// --- forgetting -------------------------------------------------------------

/// The positions below `n` that are not among `idxs`, in rising order.
pub open spec fn left(n: int, idxs: Seq<usize>) -> Seq<int>
    decreases n,
{
    if n <= 0 {
        seq![]
    } else if idxs.contains((n - 1) as usize) {
        left(n - 1, idxs)
    } else {
        left(n - 1, idxs).push(n - 1)
    }
}

/// Forgetting takes out exactly the records at the positions given, whether a
/// position is given once or again, and leaves the others in their order; a
/// position past the end takes out nothing.
pub proof fn lemma_forget(s: Seq<EntryView>, idxs: Seq<usize>)
    requires
        s.len() <= usize::MAX,
    ensures
        ({
            let rest = history::without(s, idxs);
            let at = left(s.len() as int, idxs);
            &&& rest == at.map_values(|i: int| s[i])
            &&& forall|i: int|
                #[trigger]
                at.contains(i) <==> 0 <= i < s.len() && !idxs.contains(i as usize)
            &&& forall|a: int, b: int|
                0 <= a < b < at.len() ==> #[trigger] at[a] < #[trigger] at[b]
            &&& rest.len() <= s.len()
            &&& rest.len() < s.len() <==> exists|i: usize|
                i < s.len() && #[trigger] idxs.contains(i)
        }),
    decreases s.len(),
{
    if s.len() > 0 {
        let t = s.drop_last();
        let last = (s.len() - 1) as usize;
        let before = left(t.len() as int, idxs);
        let at = left(s.len() as int, idxs);
        lemma_forget(t, idxs);
        assert(before.map_values(|i: int| t[i]) =~= before.map_values(|i: int| s[i])) by {
            assert forall|k: int| 0 <= k < before.len() implies t[#[trigger] before[k]]
                == s[before[k]] by {
                assert(before.contains(before[k]));
            }
        }
        assert forall|i: int|
            #[trigger]
            at.contains(i) <==> 0 <= i < s.len() && !idxs.contains(i as usize) by {
            assert(before.contains(i) <==> 0 <= i < t.len() && !idxs.contains(i as usize));
            if !idxs.contains(last) {
                assert(at[before.len() as int] == s.len() - 1);
                if before.contains(i) {
                    let k = choose|k: int| 0 <= k < before.len() && before[k] == i;
                    assert(at[k] == i);
                }
            }
        }
        assert forall|a: int, b: int| 0 <= a < b < at.len() implies #[trigger] at[a]
            < #[trigger] at[b] by {
            if b < before.len() {
                assert(before[a] < before[b]);
            } else {
                assert(before.contains(before[a]));
            }
        }
        assert(history::without(s, idxs) =~= at.map_values(|i: int| s[i]));
        if history::without(s, idxs).len() < s.len() {
            if idxs.contains(last) {
                assert(last < s.len());
            } else {
                let i = choose|i: usize| i < t.len() && #[trigger] idxs.contains(i);
                assert(i < s.len());
            }
        }
        if exists|i: usize| i < s.len() && #[trigger] idxs.contains(i) {
            let i = choose|i: usize| i < s.len() && #[trigger] idxs.contains(i);
            if i != last {
                assert(i < t.len());
            }
        }
    }
}

// --- grouped views ----------------------------------------------------------

/// In a grouped view no two rows show the same group, and a row stands for
/// exactly the records of its group, each once: forgetting it forgets them all
/// and nothing else.
pub proof fn lemma_grouped(s: Seq<EntryView>, n: int, view: View, disk: Map<Seq<char>, FileKind>)
    requires
        0 <= n <= s.len(),
        s.len() <= usize::MAX,
    ensures
        ({
            let rows = history::grouped(s, n, view, disk);
            &&& forall|r: int|
                0 <= r < rows.len() ==> history::group_key(
                    view,
                    (#[trigger] rows[r]).midi,
                    rows[r].soundfont,
                ) is Some && rows[r].idxs.no_duplicates()
            &&& forall|r: int, i: usize|
                0 <= r < rows.len() ==> (#[trigger] rows[r].idxs.contains(i) <==> i < n
                    && history::group_key(view, s[i as int].midi, s[i as int].soundfont)
                    == history::group_key(view, rows[r].midi, rows[r].soundfont))
            &&& forall|a: int, b: int|
                0 <= a < b < rows.len() ==> history::group_key(
                    view,
                    (#[trigger] rows[a]).midi,
                    rows[a].soundfont,
                ) != history::group_key(view, (#[trigger] rows[b]).midi, rows[b].soundfont)
            &&& forall|i: int|
                0 <= i < n && history::group_key(view, (#[trigger] s[i]).midi, s[i].soundfont) is Some
                    ==> exists|r: int| 0 <= r < rows.len() && #[trigger] rows[r].idxs.contains(
                    i as usize,
                )
        }),
    decreases n,
{
    if n > 0 {
        lemma_grouped(s, n - 1, view, disk);
        let old_rows = history::grouped(s, n - 1, view, disk);
        let rows = history::grouped(s, n, view, disk);
        let e = s[n - 1];
        let k = history::group_key(view, e.midi, e.soundfont);
        let me = (n - 1) as usize;
        let r0 = history::find_group(old_rows, view, k);
        history::lemma_find_group(old_rows, view, k);
        if k is Some {
            assert forall|r: int| 0 <= r < rows.len() implies history::group_key(
                view,
                (#[trigger] rows[r]).midi,
                rows[r].soundfont,
            ) is Some && rows[r].idxs.no_duplicates() by {
                if r0 < old_rows.len() {
                    assert(history::group_key(view, old_rows[r].midi, old_rows[r].soundfont) is Some);
                    if r == r0 {
                        assert(!old_rows[r].idxs.contains(me));
                        let x = old_rows[r].idxs;
                        assert forall|a: int, b: int|
                            0 <= a < x.push(me).len() && 0 <= b < x.push(me).len() && a
                                != b implies x.push(me)[a] != x.push(me)[b] by {
                            if a < x.len() && b < x.len() {
                                assert(x[a] != x[b]);
                            } else if a < x.len() {
                                assert(x.contains(x[a]));
                            } else if b < x.len() {
                                assert(x.contains(x[b]));
                            }
                        }
                    }
                } else if r < old_rows.len() {
                    assert(rows[r] == old_rows[r]);
                    assert(history::group_key(view, old_rows[r].midi, old_rows[r].soundfont) is Some);
                }
            }
            assert forall|r: int, i: usize| 0 <= r < rows.len() implies (
            #[trigger] rows[r].idxs.contains(i) <==> i < n && history::group_key(
                view,
                s[i as int].midi,
                s[i as int].soundfont,
            ) == history::group_key(view, rows[r].midi, rows[r].soundfont)) by {
                if r < old_rows.len() {
                    assert(old_rows[r].idxs.contains(i) <==> i < n - 1 && history::group_key(
                        view,
                        s[i as int].midi,
                        s[i as int].soundfont,
                    ) == history::group_key(view, old_rows[r].midi, old_rows[r].soundfont));
                    if r == r0 {
                        let x = old_rows[r].idxs;
                        if x.contains(i) {
                            let a = choose|a: int| 0 <= a < x.len() && x[a] == i;
                            assert(x.push(me)[a] == i);
                        }
                        assert(x.push(me)[x.len() as int] == me);
                        if x.push(me).contains(i) {
                            let a = choose|a: int| 0 <= a < x.push(me).len() && x.push(me)[a] == i;
                            if a < x.len() {
                                assert(x[a] == i);
                            }
                        }
                    } else {
                        assert(rows[r] == old_rows[r]);
                        if i == me {
                            if r0 < old_rows.len() {
                                if r < r0 {
                                    assert(history::group_key(
                                        view,
                                        old_rows[r].midi,
                                        old_rows[r].soundfont,
                                    ) != history::group_key(
                                        view,
                                        old_rows[r0].midi,
                                        old_rows[r0].soundfont,
                                    ));
                                } else {
                                    assert(history::group_key(
                                        view,
                                        old_rows[r0].midi,
                                        old_rows[r0].soundfont,
                                    ) != history::group_key(
                                        view,
                                        old_rows[r].midi,
                                        old_rows[r].soundfont,
                                    ));
                                }
                            }
                        }
                    }
                } else {
                    assert(rows[r].idxs =~= seq![me]);
                    assert(rows[r].idxs[0] == me);
                    if i < n - 1 && history::group_key(view, s[i as int].midi, s[i as int].soundfont)
                        == k {
                        assert(s[i as int] == s[i as int]);
                        let x = choose|x: int|
                            0 <= x < old_rows.len() && #[trigger] old_rows[x].idxs.contains(
                                i as int as usize,
                            );
                        assert(old_rows[x].idxs.contains(i));
                    }
                }
            }
            assert forall|i: int|
                0 <= i < n && history::group_key(view, (#[trigger] s[i]).midi, s[i].soundfont)
                    is Some implies exists|r: int|
                0 <= r < rows.len() && #[trigger] rows[r].idxs.contains(i as usize) by {
                if i == n - 1 {
                    assert(rows[r0].idxs.contains(me));
                } else {
                    let x = choose|x: int|
                        0 <= x < old_rows.len() && #[trigger] old_rows[x].idxs.contains(i as usize);
                    assert(rows[x].idxs.contains(i as usize));
                }
            }
        } else {
            assert forall|r: int, i: usize| 0 <= r < rows.len() implies (
            #[trigger] rows[r].idxs.contains(i) <==> i < n && history::group_key(
                view,
                s[i as int].midi,
                s[i as int].soundfont,
            ) == history::group_key(view, rows[r].midi, rows[r].soundfont)) by {
                assert(history::group_key(view, old_rows[r].midi, old_rows[r].soundfont) is Some);
            }
        }
    }
}

// --- writing and reading back -----------------------------------------------

/// True for a record that the file can hold: it has a time, a play and a side,
/// and its locations can be kept.
pub open spec fn record_storable(e: EntryView) -> bool {
    &&& e.when > 0
    &&& e.plays > 0
    &&& e.midi is Some || e.soundfont is Some
    &&& conf::opt_storable(e.midi)
    &&& conf::opt_storable(e.soundfont)
}

/// A further line read.
pub proof fn lemma_reading_push(v: Seq<Seq<char>>, line: Seq<char>)
    ensures
        history::reading(v.push(line)) == history::reading(v).step(
            conf::line_view(line, history::play_mark()),
        ),
{
    assert(v.push(line).drop_last() =~= v);
    assert(v.push(line).last() == line);
}

/// Numbers are written without space or line feed.
pub proof fn lemma_number_line(n: nat)
    ensures
        text::trim_end(ascii::dec(n)) == ascii::dec(n),
        !text::is_space(ascii::dec(n)[0]),
        !ascii::dec(n).contains('\n'),
        ascii::dec(n).last() != '\r',
{
    ascii::lemma_dec(n);
    let s = ascii::dec(n);
    assert(ascii::is_digit(s[0]));
    assert(ascii::is_digit(s[s.len() - 1]));
    if s.contains('\n') {
        let i = choose|i: int| 0 <= i < s.len() && s[i] == '\n';
        assert(ascii::is_digit(s[i]));
    }
}

/// A `key = value` line is one line.
pub proof fn lemma_pair_is_line(key: Seq<char>, val: Seq<char>)
    requires
        conf::is_key(key),
        !val.contains('\n'),
        val.len() > 0 ==> val.last() != '\r',
    ensures
        conf::is_line(conf::pair_line(key, val)),
{
    let s = conf::pair_line(key, val);
    if s.contains('\n') {
        let i = choose|i: int| 0 <= i < s.len() && s[i] == '\n';
        if i < key.len() {
            assert(key[i] == '\n');
        } else if i >= key.len() + 3 {
            assert(val[i - key.len() - 3] == '\n');
        }
    }
    if val.len() == 0 {
        assert(s.last() == ' ');
    } else {
        assert(s.last() == val.last());
    }
}

proof fn lemma_padded_clean(n: nat, width: nat)
    ensures
        ascii::dec_padded(n, width).len() > 0,
        ascii::all_digits(ascii::dec_padded(n, width)),
{
    ascii::lemma_dec(n);
    let s = ascii::dec(n);
    let t = ascii::dec_padded(n, width);
    assert forall|i: int| 0 <= i < t.len() implies ascii::is_digit(#[trigger] t[i]) by {
        if s.len() < width {
            let z = width - s.len();
            if i >= z {
                assert(t[i] == s[i - z]);
            }
        } else {
            assert(t[i] == s[i]);
        }
    }
}

spec fn no_feed(s: Seq<char>) -> bool {
    forall|i: int| 0 <= i < s.len() ==> #[trigger] s[i] != '\n'
}

proof fn lemma_no_feed_append(a: Seq<char>, b: Seq<char>)
    requires
        no_feed(a),
        no_feed(b),
    ensures
        no_feed(a + b),
{
}

proof fn lemma_digits_no_feed(s: Seq<char>)
    requires
        ascii::all_digits(s),
    ensures
        no_feed(s),
{
    assert forall|i: int| 0 <= i < s.len() implies #[trigger] s[i] != '\n' by {
        assert(ascii::is_digit(s[i]));
    }
}

/// A time stamp is one line.
pub proof fn lemma_stamp_is_line(unix: u64, offset: int)
    ensures
        conf::is_line("# "@ + calendar::stamp_at(unix, offset, true)),
        ("# "@ + calendar::stamp_at(unix, offset, true)).len() > 0,
        ("# "@ + calendar::stamp_at(unix, offset, true))[0] == '#',
{
    reveal_strlit("# ");
    let t = calendar::signed(unix) + offset;
    let (y, m, d) = calendar::date_of(t / 86_400);
    let secs = t % 86_400;
    let year = calendar::year_text(y);
    let dash = seq!['-'];
    let colon = seq![':'];
    let sp = seq![' '];
    lemma_padded_clean(y as nat, 4);
    lemma_padded_clean((-y) as nat, 3);
    lemma_padded_clean(m as nat, 2);
    lemma_padded_clean(d as nat, 2);
    lemma_padded_clean((secs / 3600) as nat, 2);
    lemma_padded_clean(((secs % 3600) / 60) as nat, 2);
    lemma_padded_clean((secs % 60) as nat, 2);
    if y >= 0 {
        lemma_digits_no_feed(year);
    } else {
        lemma_digits_no_feed(ascii::dec_padded((-y) as nat, 3));
        lemma_no_feed_append(dash, ascii::dec_padded((-y) as nat, 3));
    }
    let (a, b, c, e, f) = (
        calendar::two(m),
        calendar::two(d),
        calendar::two(secs / 3600),
        calendar::two((secs % 3600) / 60),
        calendar::two(secs % 60),
    );
    lemma_digits_no_feed(a);
    lemma_digits_no_feed(b);
    lemma_digits_no_feed(c);
    lemma_digits_no_feed(e);
    lemma_digits_no_feed(f);
    lemma_no_feed_append(year, dash);
    lemma_no_feed_append(year + dash, a);
    lemma_no_feed_append(year + dash + a, dash);
    lemma_no_feed_append(year + dash + a + dash, b);
    lemma_no_feed_append(year + dash + a + dash + b, sp);
    lemma_no_feed_append(year + dash + a + dash + b + sp, c);
    lemma_no_feed_append(year + dash + a + dash + b + sp + c, colon);
    lemma_no_feed_append(year + dash + a + dash + b + sp + c + colon, e);
    lemma_no_feed_append(year + dash + a + dash + b + sp + c + colon + e, colon);
    lemma_no_feed_append(year + dash + a + dash + b + sp + c + colon + e + colon, f);
    let st = calendar::stamp_at(unix, offset, true);
    assert(no_feed("# "@));
    lemma_no_feed_append("# "@, st);
    let line = "# "@ + st;
    assert(!line.contains('\n')) by {
        if line.contains('\n') {
            let i = choose|i: int| 0 <= i < line.len() && line[i] == '\n';
            assert(line[i] != '\n');
        }
    }
    assert(line.last() == f.last());
    assert(ascii::is_digit(f[f.len() - 1]));
}

proof fn lemma_mark()
    ensures
        conf::is_line(history::play_mark()),
        !history::play_mark().contains('='),
        history::play_mark().len() == 6,
        history::play_mark()[0] == '[',
        history::play_mark().last() == ']',
{
}

/// The lines of a record are lines.
proof fn lemma_entry_lines(e: EntryView, offset: int)
    requires
        record_storable(e),
    ensures
        conf::are_lines(history::entry_lines(e, offset)),
{
    history::lemma_keys_differ();
    lemma_mark();
    lemma_stamp_is_line(e.when, offset);
    lemma_number_line(e.when as nat);
    lemma_number_line(e.plays as nat);
    lemma_pair_is_line("when"@, ascii::dec(e.when as nat));
    lemma_pair_is_line("plays"@, ascii::dec(e.plays as nat));
    if let Some(l) = e.midi {
        conf::lemma_storable(l);
        lemma_pair_is_line("midi"@, l.encode());
    }
    if let Some(l) = e.soundfont {
        conf::lemma_storable(l);
        lemma_pair_is_line("sf"@, l.encode());
    }
}

/// Reading the lines of a record, after whatever was read before, gives the
/// record.
proof fn lemma_read_entry(v: Seq<Seq<char>>, e: EntryView, offset: int)
    requires
        record_storable(e),
    ensures
        history::reading(v + history::entry_lines(e, offset)) == (Reading {
            done: history::reading(v).finish(),
            cur: Some(e),
        }),
{
    let mark = history::play_mark();
    history::lemma_keys_differ();
    lemma_mark();
    lemma_stamp_is_line(e.when, offset);
    lemma_number_line(e.when as nat);
    lemma_number_line(e.plays as nat);
    let stamp = "# "@ + calendar::stamp_at(e.when, offset, true);
    let l1 = conf::pair_line("when"@, ascii::dec(e.when as nat));
    let l2 = conf::pair_line("plays"@, ascii::dec(e.plays as nat));
    conf::lemma_read_others(stamp, mark);
    conf::lemma_read_pair("when"@, ascii::dec(e.when as nat), mark);
    conf::lemma_read_pair("plays"@, ascii::dec(e.plays as nat), mark);
    ascii::lemma_parse_dec(e.when as nat, u64::MAX as nat);
    ascii::lemma_parse_dec(e.plays as nat, u32::MAX as nat);
    let empty = Seq::<char>::empty();
    let v1 = v.push(empty);
    let v2 = v1.push(stamp);
    let v3 = v2.push(mark);
    let v4 = v3.push(l1);
    let v5 = v4.push(l2);
    lemma_reading_push(v, empty);
    lemma_reading_push(v1, stamp);
    lemma_reading_push(v2, mark);
    lemma_reading_push(v3, l1);
    lemma_reading_push(v4, l2);
    let done = history::reading(v).finish();
    let blank = EntryView { midi: None, soundfont: None, when: 0, plays: 1 };
    assert(history::reading(v5) == (Reading {
        done,
        cur: Some(EntryView { when: e.when, plays: e.plays, ..blank }),
    }));
    let m = history::loc_line("midi"@, e.midi);
    let f = history::loc_line("sf"@, e.soundfont);
    let v6 = v5 + m;
    if let Some(l) = e.midi {
        conf::lemma_storable(l);
        conf::lemma_read_pair("midi"@, l.encode(), mark);
        assert(v6 =~= v5.push(m[0]));
        lemma_reading_push(v5, m[0]);
    } else {
        assert(v6 =~= v5);
    }
    assert(history::reading(v6) == (Reading {
        done,
        cur: Some(EntryView { midi: e.midi, when: e.when, plays: e.plays, ..blank }),
    }));
    let v7 = v6 + f;
    if let Some(l) = e.soundfont {
        conf::lemma_storable(l);
        conf::lemma_read_pair("sf"@, l.encode(), mark);
        assert(v7 =~= v6.push(f[0]));
        lemma_reading_push(v6, f[0]);
    } else {
        assert(v7 =~= v6);
    }
    assert(v7 =~= v + history::entry_lines(e, offset));
}

proof fn lemma_read_entries(head: Seq<Seq<char>>, s: Seq<EntryView>, n: int, offsets: Seq<i64>)
    requires
        0 <= n <= s.len(),
        forall|i: int| 0 <= i < s.len() ==> record_storable(#[trigger] s[i]),
        history::reading(head) == (Reading { done: seq![], cur: None }),
        conf::are_lines(head),
    ensures
        history::reading(head + history::entries_lines(s, n, offsets)).finish() == s.take(n),
        conf::are_lines(head + history::entries_lines(s, n, offsets)),
    decreases n,
{
    if n <= 0 {
        assert(head + history::entries_lines(s, n, offsets) =~= head);
        assert(s.take(0) =~= seq![]);
    } else {
        lemma_read_entries(head, s, n - 1, offsets);
        let v = head + history::entries_lines(s, n - 1, offsets);
        let o = history::offset_at(offsets, n - 1);
        let e = s[n - 1];
        lemma_read_entry(v, e, o);
        lemma_entry_lines(e, o);
        let w = head + history::entries_lines(s, n, offsets);
        assert(w =~= v + history::entry_lines(e, o));
        assert(s.take(n) =~= s.take(n - 1).push(e));
        assert forall|i: int| 0 <= i < w.len() implies conf::is_line(#[trigger] w[i]) by {
            if i < v.len() {
                assert(w[i] == v[i]);
            } else {
                assert(w[i] == history::entry_lines(e, o)[i - v.len()]);
            }
        }
    }
}

/// Reading the file that the log is written to gives the log back.
pub proof fn lemma_history_round_trip(s: Seq<EntryView>, offsets: Seq<i64>)
    requires
        forall|i: int| 0 <= i < s.len() ==> record_storable(#[trigger] s[i]),
    ensures
        history::parsed(conf::unlines(history::file_lines(s, offsets))) == s,
{
    let a = "# voxfont playing history v1"@;
    let b = "# Newest first. Times below are local."@;
    reveal_strlit("# voxfont playing history v1");
    reveal_strlit("# Newest first. Times below are local.");
    lemma_mark();
    conf::lemma_read_others(a, history::play_mark());
    conf::lemma_read_others(b, history::play_mark());
    let none = Seq::<Seq<char>>::empty();
    lemma_reading_push(none, a);
    lemma_reading_push(none.push(a), b);
    let head = seq![a, b];
    assert(none.push(a).push(b) =~= head);
    assert(history::reading(none) == (Reading { done: seq![], cur: None }));
    lemma_read_entries(head, s, s.len() as int, offsets);
    conf::lemma_lines_unlines(history::file_lines(s, offsets));
    assert(s.take(s.len() as int) =~= s);
}

/// A log that is newest first is left as it is by sorting.
pub proof fn lemma_newest_first_id(s: Seq<EntryView>)
    requires
        history::is_newest_first(s),
    ensures
        history::newest_first(s) == s,
{
    let keys = history::when_keys(s);
    let p = Seq::new(s.len(), |i: int| i);
    assert forall|a: int, b: int| 0 <= a < b < p.len() implies sorting::before(
        keys,
        #[trigger] p[a],
        #[trigger] p[b],
    ) by {
        reveal_with_fuel(sorting::key_less, 2);
        assert(s[a].when >= s[b].when);
        assert(keys[a] == seq![-(s[a].when as int)]);
        assert(keys[b] == seq![-(s[b].when as int)]);
        if s[a].when == s[b].when {
            assert(keys[a] =~= keys[b]);
        } else {
            assert(keys[a][0] < keys[b][0]);
        }
    }
    assert forall|i: int| 0 <= i < keys.len() implies #[trigger] p.contains(i) by {
        assert(p[i] == i);
    }
    sorting::lemma_order_is(keys, p);
    assert(history::newest_first(s) =~= s);
}

/// A log that was written is the same log when it is loaded again.
pub proof fn lemma_saved_then_loaded(s: Seq<EntryView>, offsets: Seq<i64>, path: Seq<char>)
    requires
        history::is_newest_first(s),
        forall|i: int| 0 <= i < s.len() ==> record_storable(#[trigger] s[i]),
    ensures
        history::loaded(path, Some(conf::unlines(history::file_lines(s, offsets)))).entries == s,
{
    lemma_history_round_trip(s, offsets);
    lemma_newest_first_id(s);
}

} // verus!
