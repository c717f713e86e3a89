//! What holds of the favourites as a whole.

use crate::ascii;
use crate::calendar;
use crate::conf;
use crate::favourites;
use crate::favourites::{FavView, PartView, Reading};
use crate::history;
use crate::history_laws;
use crate::vfs::LocView;
use vstd::prelude::*;

verus! {

/// No pair is starred twice.
pub open spec fn distinct_favs(s: Seq<FavView>) -> bool {
    forall|i: int, j: int| 0 <= i < j < s.len() ==> (#[trigger] s[i]).key() != (#[trigger] s[j]).key()
}

/// Toggling the star on a pair flips whether it is starred, leaves every other
/// pair as it was, and never stars a pair twice.
pub proof fn lemma_toggle(s: Seq<FavView>, midi: LocView, soundfont: LocView, now: u64)
    requires
        distinct_favs(s),
    ensures
        ({
            let t = favourites::toggled(s, midi, soundfont, now);
            &&& favourites::has_pair(t, midi, soundfont) == !favourites::has_pair(
                s,
                midi,
                soundfont,
            )
            &&& distinct_favs(t)
            &&& forall|m: LocView, f: LocView|
                (m.key(), f.key()) != (midi.key(), soundfont.key()) ==> #[trigger]
                favourites::has_pair(t, m, f) == favourites::has_pair(s, m, f)
        }),
{
    let k = (midi.key(), soundfont.key());
    let t = favourites::toggled(s, midi, soundfont, now);
    let i = favourites::find_fav(s, k);
    favourites::lemma_find_fav(s, k);
    favourites::lemma_find_fav(t, k);
    let j = favourites::find_fav(t, k);
    if i < s.len() {
        if j < t.len() {
            let j2 = if j < i { j } else { j + 1 };
            assert(t[j] == s[j2]);
            if j2 < i {
                assert(s[j2].key() != s[i].key());
            } else {
                assert(s[i].key() != s[j2].key());
            }
        }
        assert forall|a: int, b: int| 0 <= a < b < t.len() implies (#[trigger] t[a]).key() != (
        #[trigger] t[b]).key() by {
            let a2 = if a < i { a } else { a + 1 };
            let b2 = if b < i { b } else { b + 1 };
            assert(t[a] == s[a2] && t[b] == s[b2]);
        }
    } else {
        assert(t[s.len() as int].key() == k);
        if j >= t.len() {
            assert(t[s.len() as int].key() != k);
        }
        assert forall|a: int, b: int| 0 <= a < b < t.len() implies (#[trigger] t[a]).key() != (
        #[trigger] t[b]).key() by {
            assert(t[a] == s[a]);
            if b == s.len() {
                assert(s[a].key() != k);
            }
        }
    }
    assert forall|m: LocView, f: LocView|
        (m.key(), f.key()) != k implies #[trigger] favourites::has_pair(t, m, f)
        == favourites::has_pair(s, m, f) by {
        let k2 = (m.key(), f.key());
        favourites::lemma_find_fav(s, k2);
        favourites::lemma_find_fav(t, k2);
        let a = favourites::find_fav(s, k2);
        let b = favourites::find_fav(t, k2);
        if a < s.len() && b >= t.len() {
            if i < s.len() {
                assert(a != i);
                let a2 = if a < i { a } else { a - 1 };
                assert(t[a2] == s[a]);
            } else {
                assert(t[a] == s[a]);
            }
        }
        if b < t.len() && a >= s.len() {
            if i < s.len() {
                let b2 = if b < i { b } else { b + 1 };
                assert(t[b] == s[b2]);
            } else {
                assert(b < s.len());
                assert(t[b] == s[b]);
            }
        }
    }
}

/// Starring a pair and un-starring it again leaves the list as it was: a star
/// does not reshuffle what is queued.
pub proof fn lemma_toggle_twice(
    s: Seq<FavView>,
    midi: LocView,
    soundfont: LocView,
    now: u64,
    later: u64,
)
    requires
        !favourites::has_pair(s, midi, soundfont),
    ensures
        favourites::toggled(favourites::toggled(s, midi, soundfont, now), midi, soundfont, later)
            == s,
{
    let k = (midi.key(), soundfont.key());
    let t = favourites::toggled(s, midi, soundfont, now);
    favourites::lemma_find_fav(s, k);
    assert forall|i: int| 0 <= i < s.len() implies (#[trigger] t[i]).key() != k by {
        assert(t[i] == s[i]);
        assert(s[i].key() != k);
    }
    favourites::lemma_find_fav_is(t, k, s.len() as int);
    assert(t.remove(s.len() as int) =~= s);
}

/// The same track starred through two fonts is two favourites.
pub proof fn lemma_two_fonts(
    s: Seq<FavView>,
    midi: LocView,
    font: LocView,
    other: LocView,
    now: u64,
)
    requires
        distinct_favs(s),
        font.key() != other.key(),
        !favourites::has_pair(s, midi, font),
        !favourites::has_pair(s, midi, other),
    ensures
        ({
            let t = favourites::toggled(
                favourites::toggled(s, midi, font, now),
                midi,
                other,
                now,
            );
            t.len() == s.len() + 2 && favourites::has_pair(t, midi, font) && favourites::has_pair(
                t,
                midi,
                other,
            )
        }),
{
    lemma_toggle(s, midi, font, now);
    let t = favourites::toggled(s, midi, font, now);
    assert(favourites::has_pair(t, midi, other) == favourites::has_pair(s, midi, other));
    lemma_toggle(t, midi, other, now);
    let u = favourites::toggled(t, midi, other, now);
    assert(favourites::has_pair(u, midi, font) == favourites::has_pair(t, midi, font));
}

/// A starred pair has a starred track and a starred font: a solid star is
/// never where a hollow one could not be.
pub proof fn lemma_pair_has_sides(s: Seq<FavView>, midi: LocView, soundfont: LocView)
    requires
        favourites::has_pair(s, midi, soundfont),
    ensures
        favourites::has_midi(s, midi),
        favourites::has_soundfont(s, soundfont),
{
    let k = (midi.key(), soundfont.key());
    favourites::lemma_find_fav(s, k);
    let i = favourites::find_fav(s, k);
    assert(s[i].midi.key() == midi.key());
}

/// Exchanging two entries twice changes nothing, and once keeps every entry.
pub proof fn lemma_swap<T>(s: Seq<T>, a: int, b: int)
    requires
        0 <= a < s.len(),
        0 <= b < s.len(),
    ensures
        favourites::swapped(favourites::swapped(s, a, b), a, b) == s,
        favourites::swapped(s, a, b).len() == s.len(),
        favourites::swapped(s, a, b)[a] == s[b],
        favourites::swapped(s, a, b)[b] == s[a],
        forall|i: int|
            0 <= i < s.len() && i != a && i != b ==> #[trigger] favourites::swapped(s, a, b)[i]
                == s[i],
{
    assert(favourites::swapped(favourites::swapped(s, a, b), a, b) =~= s);
}

// --- writing and reading back -----------------------------------------------

/// True for a pair that the file can hold.
pub open spec fn fav_storable(f: FavView) -> bool {
    conf::storable(f.midi) && conf::storable(f.soundfont)
}

proof fn lemma_reading_push(v: Seq<Seq<char>>, line: Seq<char>)
    ensures
        favourites::reading(v.push(line)) == favourites::reading(v).step(
            conf::line_view(line, favourites::fav_mark()),
        ),
{
    assert(v.push(line).drop_last() =~= v);
    assert(v.push(line).last() == line);
}

proof fn lemma_mark()
    ensures
        conf::is_line(favourites::fav_mark()),
        !favourites::fav_mark().contains('='),
        favourites::fav_mark().len() == 5,
        favourites::fav_mark()[0] == '[',
        favourites::fav_mark().last() == ']',
{
}

/// The lines of a pair are lines, and reading them gives the pair.
proof fn lemma_read_fav(v: Seq<Seq<char>>, f: FavView, offset: int)
    requires
        fav_storable(f),
    ensures
        conf::are_lines(favourites::fav_lines(f, offset)),
        favourites::reading(v + favourites::fav_lines(f, offset)) == (Reading {
            done: favourites::reading(v).finish(),
            cur: Some(
                PartView { midi: Some(f.midi), soundfont: Some(f.soundfont), added: f.added },
            ),
        }),
{
    let mark = favourites::fav_mark();
    history::lemma_keys_differ();
    favourites::lemma_keys_differ();
    lemma_mark();
    let stamp = "# "@ + calendar::stamp_at(f.added, offset, true);
    history_laws::lemma_stamp_is_line(f.added, offset);
    history_laws::lemma_number_line(f.added as nat);
    conf::lemma_storable(f.midi);
    conf::lemma_storable(f.soundfont);
    let added = ascii::dec(f.added as nat);
    history_laws::lemma_pair_is_line("added"@, added);
    history_laws::lemma_pair_is_line("midi"@, f.midi.encode());
    history_laws::lemma_pair_is_line("sf"@, f.soundfont.encode());
    conf::lemma_read_others(stamp, mark);
    conf::lemma_read_pair("added"@, added, mark);
    conf::lemma_read_pair("midi"@, f.midi.encode(), mark);
    conf::lemma_read_pair("sf"@, f.soundfont.encode(), mark);
    ascii::lemma_parse_dec(f.added as nat, u64::MAX as nat);
    let empty = Seq::<char>::empty();
    let l1 = conf::pair_line("added"@, added);
    let l2 = conf::pair_line("midi"@, f.midi.encode());
    let l3 = conf::pair_line("sf"@, f.soundfont.encode());
    let v1 = v.push(empty);
    let v2 = v1.push(stamp);
    let v3 = v2.push(mark);
    let v4 = v3.push(l1);
    let v5 = v4.push(l2);
    lemma_reading_push(v, empty);
    lemma_reading_push(v1, stamp);
    lemma_reading_push(v2, mark);
    lemma_reading_push(v3, l1);
    lemma_reading_push(v4, l2);
    lemma_reading_push(v5, l3);
    assert(v5.push(l3) =~= v + favourites::fav_lines(f, offset));
}

proof fn lemma_read_favs(head: Seq<Seq<char>>, s: Seq<FavView>, n: int, offsets: Seq<i64>)
    requires
        0 <= n <= s.len(),
        forall|i: int| 0 <= i < s.len() ==> fav_storable(#[trigger] s[i]),
        favourites::reading(head) == (Reading { done: seq![], cur: None }),
        conf::are_lines(head),
    ensures
        favourites::reading(head + favourites::favs_lines(s, n, offsets)).finish() == s.take(n),
        conf::are_lines(head + favourites::favs_lines(s, n, offsets)),
    decreases n,
{
    if n <= 0 {
        assert(head + favourites::favs_lines(s, n, offsets) =~= head);
        assert(s.take(0) =~= seq![]);
    } else {
        lemma_read_favs(head, s, n - 1, offsets);
        let v = head + favourites::favs_lines(s, n - 1, offsets);
        let o = history::offset_at(offsets, n - 1);
        let f = s[n - 1];
        lemma_read_fav(v, f, o);
        let w = head + favourites::favs_lines(s, n, offsets);
        assert(w =~= v + favourites::fav_lines(f, o));
        assert(s.take(n) =~= s.take(n - 1).push(f));
        assert forall|i: int| 0 <= i < w.len() implies conf::is_line(#[trigger] w[i]) by {
            if i < v.len() {
                assert(w[i] == v[i]);
            } else {
                assert(w[i] == favourites::fav_lines(f, o)[i - v.len()]);
            }
        }
    }
}

/// Reading the file that the favourites are written to gives them back, in
/// their order.
pub proof fn lemma_favourites_round_trip(s: Seq<FavView>, offsets: Seq<i64>)
    requires
        forall|i: int| 0 <= i < s.len() ==> fav_storable(#[trigger] s[i]),
    ensures
        favourites::parsed(conf::unlines(favourites::file_lines(s, offsets))) == s,
{
    let a = "# voxfont favourites v1"@;
    let b = "# Track + SoundFont pairs, in the order they play. Times below are local."@;
    reveal_strlit("# voxfont favourites v1");
    reveal_strlit("# Track + SoundFont pairs, in the order they play. Times below are local.");
    lemma_mark();
    conf::lemma_read_others(a, favourites::fav_mark());
    conf::lemma_read_others(b, favourites::fav_mark());
    let none = Seq::<Seq<char>>::empty();
    lemma_reading_push(none, a);
    lemma_reading_push(none.push(a), b);
    let head = seq![a, b];
    assert(none.push(a).push(b) =~= head);
    assert(favourites::reading(none) == (Reading { done: seq![], cur: None }));
    lemma_read_favs(head, s, s.len() as int, offsets);
    conf::lemma_lines_unlines(favourites::file_lines(s, offsets));
    assert(s.take(s.len() as int) =~= s);
}

} // verus!
