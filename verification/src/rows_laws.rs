//! What the history keeps of a play, and what the rows of the overlays show of
//! the history, the favourites and the playlist.

use crate::favourites;
use crate::favourites::FavView;
use crate::history;
use crate::history::{EntryView, RowView, View};
use crate::playlist;
use crate::playlist::ItemView;
use crate::sorting;
use crate::text;
use crate::vfs;
use crate::vfs::{FileKind, LocKey, LocView};
use vstd::prelude::*;

verus! {

// --- keeping a play ---------------------------------------------------------

/// True when `e` is the record of that combination, however its paths are
/// spelled.
pub open spec fn is_record_of(e: EntryView, midi: Option<LocView>, soundfont: Option<LocView>) -> bool {
    vfs::opt_key(e.midi) == vfs::opt_key(midi) && vfs::opt_key(e.soundfont) == vfs::opt_key(
        soundfont,
    )
}

/// True when `t` is `s` with `e` put in by its time: below what is newer, on
/// top of what is not, with the rest in its order.
pub open spec fn put_in(t: Seq<EntryView>, s: Seq<EntryView>, e: EntryView) -> bool {
    exists|j: int|
        0 <= j <= s.len() && #[trigger] s.insert(j, e) == t && (forall|i: int|
            0 <= i < j ==> (#[trigger] s[i]).when > e.when) && (forall|i: int|
            j <= i < s.len() ==> (#[trigger] s[i]).when <= e.when)
}

/// How many records at the top are newer than `now`.
spec fn newer(s: Seq<EntryView>, now: u64) -> int
    decreases s.len(),
{
    if s.len() == 0 || s[0].when <= now {
        0
    } else {
        1 + newer(s.drop_first(), now)
    }
}

proof fn lemma_newer(s: Seq<EntryView>, now: u64)
    requires
        history::is_newest_first(s),
    ensures
        0 <= newer(s, now) <= s.len(),
        forall|i: int| 0 <= i < newer(s, now) ==> (#[trigger] s[i]).when > now,
        forall|i: int| newer(s, now) <= i < s.len() ==> (#[trigger] s[i]).when <= now,
    decreases s.len(),
{
    if s.len() > 0 && s[0].when > now {
        let r = s.drop_first();
        assert forall|i: int, j: int| 0 <= i < j < r.len() implies (#[trigger] r[i]).when >= (
        #[trigger] r[j]).when by {
            assert(r[i] == s[i + 1] && r[j] == s[j + 1]);
        }
        lemma_newer(r, now);
        assert forall|i: int| 0 <= i < newer(s, now) implies (#[trigger] s[i]).when > now by {
            if i > 0 {
                assert(r[i - 1] == s[i]);
            }
        }
        assert forall|i: int| newer(s, now) <= i < s.len() implies (#[trigger] s[i]).when <= now by {
            assert(r[i - 1] == s[i]);
        }
    } else if s.len() > 0 {
        assert forall|i: int| 0 <= i < s.len() implies (#[trigger] s[i]).when <= now by {
            if i > 0 {
                assert(s[0].when >= s[i].when);
            }
        }
    }
}

/// A record put on top of a log sinks below what is newer.
proof fn lemma_sinks(s: Seq<EntryView>, e: EntryView)
    requires
        history::is_newest_first(s),
    ensures
        put_in(history::newest_first(seq![e] + s), s, e),
{
    let u = seq![e] + s;
    let keys = history::when_keys(u);
    let n = newer(s, e.when);
    lemma_newer(s, e.when);
    let q = Seq::new(
        u.len(),
        |i: int|
            if i < n {
                i + 1
            } else if i == n {
                0
            } else {
                i
            },
    );
    assert forall|i: int| 0 <= i < u.len() implies #[trigger] keys[i] == seq![-(u[i].when as int)] by {}
    assert forall|a: int, b: int| 0 <= a < b < q.len() implies sorting::before(
        keys,
        #[trigger] q[a],
        #[trigger] q[b],
    ) by {
        reveal_with_fuel(sorting::key_less, 2);
        let x = q[a];
        let y = q[b];
        assert(keys[x] == seq![-(u[x].when as int)]);
        assert(keys[y] == seq![-(u[y].when as int)]);
        if x > 0 {
            assert(u[x] == s[x - 1]);
        }
        if y > 0 {
            assert(u[y] == s[y - 1]);
        }
        assert(u[x].when >= u[y].when);
        if u[x].when == u[y].when {
            assert(keys[x] =~= keys[y]);
        }
    }
    assert forall|i: int| 0 <= i < keys.len() implies #[trigger] q.contains(i) by {
        if i == 0 {
            assert(q[n] == 0);
        } else if i <= n {
            assert(q[i - 1] == i);
        } else {
            assert(q[i] == i);
        }
    }
    assert(sorting::is_order(keys, q));
    sorting::lemma_order_is(keys, q);
    assert(history::newest_first(u) =~= s.insert(n, e));
}

/// Playing a combination keeps one record of it: the one there was, as spelled
/// there, with the time of this play and one play more unless the play does not
/// count, or else a new one with a first play. It stands below what is newer
/// and on top of the rest, which stays as it was.
pub proof fn lemma_play_is_kept(
    s: Seq<EntryView>,
    midi: Option<LocView>,
    soundfont: Option<LocView>,
    now: u64,
    count: bool,
)
    requires
        history::is_newest_first(s),
    ensures
        ({
            let t = history::recorded(s, midi, soundfont, now, count);
            &&& forall|i: int|
                0 <= i < s.len() && is_record_of(#[trigger] s[i], midi, soundfont) && (forall|j: int|
                    0 <= j < i ==> !is_record_of(#[trigger] s[j], midi, soundfont)) ==> put_in(
                    t,
                    s.remove(i),
                    EntryView {
                        midi: s[i].midi,
                        soundfont: s[i].soundfont,
                        when: now,
                        plays: if !count || s[i].plays == u32::MAX {
                            s[i].plays
                        } else {
                            (s[i].plays + 1) as u32
                        },
                    },
                )
            &&& (forall|i: int|
                0 <= i < s.len() ==> !is_record_of(#[trigger] s[i], midi, soundfont)) ==> put_in(
                t,
                s,
                EntryView { midi, soundfont, when: now, plays: 1 },
            )
        }),
{
    let k = (vfs::opt_key(midi), vfs::opt_key(soundfont));
    let f = history::find_pair(s, k);
    history::lemma_find_pair(s, k);
    if f < s.len() {
        let r = s.remove(f);
        let plays = if !count || s[f].plays == u32::MAX {
            s[f].plays
        } else {
            (s[f].plays + 1) as u32
        };
        assert forall|i: int, j: int| 0 <= i < j < r.len() implies (#[trigger] r[i]).when >= (
        #[trigger] r[j]).when by {
            let i2 = if i < f {
                i
            } else {
                i + 1
            };
            let j2 = if j < f {
                j
            } else {
                j + 1
            };
            assert(r[i] == s[i2] && r[j] == s[j2]);
        }
        let e = EntryView { when: now, plays, ..s[f] };
        lemma_sinks(r, e);
        assert(is_record_of(s[f], midi, soundfont));
        assert forall|i: int|
            0 <= i < s.len() && is_record_of(#[trigger] s[i], midi, soundfont) && (forall|j: int|
                0 <= j < i ==> !is_record_of(#[trigger] s[j], midi, soundfont)) implies i == f by {
            if i < f {
                assert(s[i].key() != k);
            }
        }
    } else {
        lemma_sinks(s, EntryView { midi, soundfont, when: now, plays: 1 });
        assert forall|i: int| 0 <= i < s.len() implies !is_record_of(
            #[trigger] s[i],
            midi,
            soundfont,
        ) by {
            assert(s[i].key() != k);
        }
    }
}

// --- rows -------------------------------------------------------------------

/// True when a given side is not there.
pub open spec fn side_gone(l: Option<LocView>, disk: Map<Seq<char>, FileKind>) -> bool {
    l is Some && !(l->0).is_present(disk)
}

/// A location is there when its file is, an archive's member when the archive
/// is a file.
pub proof fn lemma_present(p: Seq<char>, inner: Seq<char>, disk: Map<Seq<char>, FileKind>)
    ensures
        LocView::Fs(p).is_present(disk) <==> disk.contains_key(p),
        (LocView::Zip { archive: p, inner }).is_present(disk) <==> disk.contains_key(p) && disk[p]
            == FileKind::File,
{
}

/// The history by combination: one row for each record, in the order of the
/// log, with its time and plays, marked when a side of it is gone.
pub proof fn lemma_pair_rows(s: Seq<EntryView>, disk: Map<Seq<char>, FileKind>, i: int)
    requires
        0 <= i < s.len() <= usize::MAX,
    ensures
        history::all_rows(s, View::Pairs, disk).len() == s.len(),
        ({
            let r = history::all_rows(s, View::Pairs, disk)[i];
            &&& r.midi == s[i].midi && r.soundfont == s[i].soundfont
            &&& r.when == s[i].when && r.plays == s[i].plays
            &&& r.idxs.len() == 1 && r.idxs[0] == i
            &&& r.gone <==> side_gone(s[i].midi, disk) || side_gone(s[i].soundfont, disk)
        }),
{
}

/// The side a record is grouped by: its track in one view, its SoundFont in the
/// other.
pub open spec fn side(e: EntryView, view: View) -> Option<LocKey> {
    if view == View::Fonts {
        vfs::opt_key(e.soundfont)
    } else {
        vfs::opt_key(e.midi)
    }
}

/// The plays of the first `n` records of a group, together.
pub open spec fn group_plays(s: Seq<EntryView>, n: int, view: View, k: Option<LocKey>) -> int
    decreases n,
{
    if n <= 0 {
        0
    } else {
        group_plays(s, n - 1, view, k) + if side(s[n - 1], view) == k {
            s[n - 1].plays as int
        } else {
            0
        }
    }
}

/// What a row of a grouped view shows of the first `n` records: the newest of
/// its group, and the plays of all of them, as far as a count goes.
pub open spec fn shows_group(
    r: RowView,
    s: Seq<EntryView>,
    n: int,
    view: View,
    disk: Map<Seq<char>, FileKind>,
) -> bool {
    &&& r.idxs.len() > 0 && r.idxs[0] < n
    &&& ({
        let e = s[r.idxs[0] as int];
        let sum = group_plays(s, n, view, side(e, view));
        &&& side(e, view) is Some
        &&& forall|i: int| 0 <= i < r.idxs[0] ==> side(#[trigger] s[i], view) != side(e, view)
        &&& r.midi == e.midi && r.soundfont == e.soundfont && r.when == e.when
        &&& r.gone <==> side_gone(e.midi, disk) || side_gone(e.soundfont, disk)
        &&& r.plays == if sum <= u32::MAX {
            sum
        } else {
            u32::MAX as int
        }
    })
}

proof fn lemma_group_plays(s: Seq<EntryView>, n: int, view: View, k: Option<LocKey>)
    requires
        0 <= n <= s.len(),
    ensures
        group_plays(s, n, view, k) >= 0,
        (forall|i: int| 0 <= i < n ==> side(#[trigger] s[i], view) != k) ==> group_plays(
            s,
            n,
            view,
            k,
        ) == 0,
    decreases n,
{
    if n > 0 {
        lemma_group_plays(s, n - 1, view, k);
    }
}

#[verifier::rlimit(40)]
proof fn lemma_grouped_rows(
    s: Seq<EntryView>,
    n: int,
    view: View,
    disk: Map<Seq<char>, FileKind>,
)
    requires
        0 <= n <= s.len() <= usize::MAX,
        view != View::Pairs,
    ensures
        ({
            let rows = history::grouped(s, n, view, disk);
            &&& forall|a: int|
                0 <= a < rows.len() ==> shows_group(#[trigger] rows[a], s, n, view, disk)
            &&& forall|a: int, b: int|
                0 <= a < b < rows.len() ==> (#[trigger] rows[a]).idxs[0] < (
                #[trigger] rows[b]).idxs[0]
            &&& forall|i: int|
                0 <= i < n && side(#[trigger] s[i], view) is Some ==> exists|a: int|
                    0 <= a < rows.len() && side(s[(#[trigger] rows[a]).idxs[0] as int], view) == side(
                        s[i],
                        view,
                    )
        }),
    decreases n,
{
    if n > 0 {
        let was = history::grouped(s, n - 1, view, disk);
        let rows = history::grouped(s, n, view, disk);
        lemma_grouped_rows(s, n - 1, view, disk);
        let e = s[n - 1];
        let k = side(e, view);
        assert(k == history::group_key(view, e.midi, e.soundfont));
        let f = history::find_group(was, view, k);
        history::lemma_find_group(was, view, k);
        lemma_group_plays(s, n - 1, view, k);
        if k is Some && f >= was.len() {
            assert forall|i: int| 0 <= i < n - 1 implies side(#[trigger] s[i], view) != k by {
                if side(s[i], view) == k {
                    let a = choose|a: int|
                        0 <= a < was.len() && side(s[(#[trigger] was[a]).idxs[0] as int], view)
                            == k;
                    assert(shows_group(was[a], s, n - 1, view, disk));
                    assert(history::group_key(view, was[a].midi, was[a].soundfont) == k);
                }
            }
        }
        assert forall|a: int| 0 <= a < rows.len() implies shows_group(
            #[trigger] rows[a],
            s,
            n,
            view,
            disk,
        ) by {
            if a < was.len() {
                assert(shows_group(was[a], s, n - 1, view, disk));
                assert(rows[a].idxs[0] == was[a].idxs[0]);
                let x = s[was[a].idxs[0] as int];
                assert(side(x, view) == history::group_key(view, was[a].midi, was[a].soundfont));
                if k is Some && f < was.len() {
                    if a == f {
                        assert(side(x, view) == k);
                    } else if side(x, view) == k {
                        assert(shows_group(was[f], s, n - 1, view, disk));
                        let y = s[was[f].idxs[0] as int];
                        assert(side(y, view) == k);
                        if a < f {
                            assert(was[a].idxs[0] < was[f].idxs[0]);
                        } else {
                            assert(was[f].idxs[0] < was[a].idxs[0]);
                        }
                        assert(false);
                    }
                }
            } else {
                assert(rows[a] == history::pair_row(e, n - 1, disk));
            }
        }
        assert forall|a: int, b: int| 0 <= a < b < rows.len() implies (#[trigger] rows[a]).idxs[0]
            < (#[trigger] rows[b]).idxs[0] by {
            assert(shows_group(was[a], s, n - 1, view, disk));
            if b < was.len() {
                assert(was[a].idxs[0] < was[b].idxs[0]);
                assert(shows_group(was[b], s, n - 1, view, disk));
            }
        }
        assert forall|i: int| 0 <= i < n && side(#[trigger] s[i], view) is Some implies exists|
            a: int,
        |
            0 <= a < rows.len() && side(s[(#[trigger] rows[a]).idxs[0] as int], view) == side(
                s[i],
                view,
            ) by {
            if i < n - 1 {
                let a = choose|a: int|
                    0 <= a < was.len() && side(s[(#[trigger] was[a]).idxs[0] as int], view) == side(
                        s[i],
                        view,
                    );
                assert(shows_group(was[a], s, n - 1, view, disk));
                assert(rows[a].idxs[0] == was[a].idxs[0]);
            } else if f < was.len() {
                assert(shows_group(was[f], s, n - 1, view, disk));
                assert(rows[f].idxs[0] == was[f].idxs[0]);
                assert(side(s[rows[f].idxs[0] as int], view) == k);
            } else {
                assert(rows[was.len() as int].idxs[0] == n - 1);
            }
        }
    }
}

/// The history by track or by SoundFont: one row for each that some record has,
/// the one last played first; a row shows the newest record of its group, and
/// the plays of all of them.
pub proof fn lemma_group_rows(s: Seq<EntryView>, view: View, disk: Map<Seq<char>, FileKind>)
    requires
        s.len() <= usize::MAX,
        view != View::Pairs,
    ensures
        ({
            let rows = history::all_rows(s, view, disk);
            let n = s.len() as int;
            &&& forall|a: int|
                0 <= a < rows.len() ==> shows_group(#[trigger] rows[a], s, n, view, disk)
            &&& forall|a: int, b: int|
                0 <= a < b < rows.len() ==> (#[trigger] rows[a]).idxs[0] < (
                #[trigger] rows[b]).idxs[0]
            &&& forall|i: int|
                0 <= i < n && side(#[trigger] s[i], view) is Some ==> exists|a: int|
                    0 <= a < rows.len() && side(s[(#[trigger] rows[a]).idxs[0] as int], view) == side(
                        s[i],
                        view,
                    )
        }),
{
    lemma_grouped_rows(s, s.len() as int, view, disk);
}

/// The plays of a pair, by the log: none where it has no record.
pub proof fn lemma_plays_of_a_pair(s: Seq<EntryView>, midi: LocView, soundfont: LocView)
    ensures
        forall|i: int|
            0 <= i < s.len() && is_record_of(#[trigger] s[i], Some(midi), Some(soundfont)) && (
            forall|j: int|
                0 <= j < i ==> !is_record_of(#[trigger] s[j], Some(midi), Some(soundfont)))
                ==> history::pair_plays(s, midi, soundfont) == s[i].plays,
        (forall|i: int|
            0 <= i < s.len() ==> !is_record_of(#[trigger] s[i], Some(midi), Some(soundfont)))
            ==> history::pair_plays(s, midi, soundfont) == 0,
{
    let k = (Some(midi.key()), Some(soundfont.key()));
    let f = history::find_pair(s, k);
    history::lemma_find_pair(s, k);
    if f < s.len() {
        assert(is_record_of(s[f], Some(midi), Some(soundfont)));
    }
    assert forall|i: int|
        0 <= i < s.len() && is_record_of(#[trigger] s[i], Some(midi), Some(soundfont)) && (forall|
            j: int,
        | 0 <= j < i ==> !is_record_of(#[trigger] s[j], Some(midi), Some(soundfont))) implies i
        == f by {
        if i < f {
            assert(s[i].key() != k);
        }
        assert(f <= i);
    }
}

/// The favourites: one row for each, in their order, with when it was starred,
/// the plays that the log has of the pair, and whether a side of it is gone.
pub proof fn lemma_favourite_rows(
    v: Seq<FavView>,
    log: Seq<EntryView>,
    disk: Map<Seq<char>, FileKind>,
    i: int,
)
    requires
        0 <= i < v.len() <= usize::MAX,
    ensures
        favourites::fav_rows(v, log, disk).len() == v.len(),
        ({
            let r = favourites::fav_rows(v, log, disk)[i];
            &&& r.midi == Some(v[i].midi) && r.soundfont == Some(v[i].soundfont)
            &&& r.when == v[i].added
            &&& r.plays == history::pair_plays(log, v[i].midi, v[i].soundfont)
            &&& r.idxs.len() == 1 && r.idxs[0] == i
            &&& r.gone <==> !v[i].midi.is_present(disk) || !v[i].soundfont.is_present(disk)
        }),
{
}

/// The playlist: one row for each item, in its order. Its plays are those of
/// its track through its own SoundFont or, where it has none, the user's.
pub proof fn lemma_item_rows(
    v: Seq<ItemView>,
    log: Seq<EntryView>,
    user_font: Option<LocView>,
    disk: Map<Seq<char>, FileKind>,
    i: int,
)
    requires
        0 <= i < v.len() <= usize::MAX,
    ensures
        playlist::item_rows(v, log, user_font, disk).len() == v.len(),
        ({
            let r = playlist::item_rows(v, log, user_font, disk)[i];
            let f = if v[i].soundfont is Some {
                v[i].soundfont
            } else {
                user_font
            };
            &&& r.midi == Some(v[i].midi) && r.soundfont == v[i].soundfont
            &&& f matches Some(sf) ==> r.plays == history::pair_plays(log, v[i].midi, sf)
            &&& f is None ==> r.plays == 0
            &&& r.idxs.len() == 1 && r.idxs[0] == i
            &&& r.gone <==> !v[i].midi.is_present(disk) || side_gone(v[i].soundfont, disk)
        }),
{
}

// --- the filter -------------------------------------------------------------

/// The name a row shows for a side, if it has that side.
pub open spec fn shown_name(l: Option<LocView>) -> Seq<char> {
    if l is Some {
        (l->0).file_name()
    } else {
        seq![]
    }
}

/// The filter of an overlay goes through the rows in their order and keeps
/// those whose two names, with a space between them, hold what was typed,
/// whatever the letter case and the space around it.
pub proof fn lemma_filter_goes_through(rows: Seq<RowView>, r: RowView, filter: Seq<char>)
    ensures
        history::filtered(seq![], filter).len() == 0,
        ({
            let looked_for = text::lower(text::trim(filter));
            let names = text::lower(
                shown_name(r.midi) + seq![' '] + shown_name(r.soundfont),
            );
            history::filtered(rows.push(r), filter) == if looked_for.len() == 0 || text::has(
                names,
                looked_for,
            ) {
                history::filtered(rows, filter).push(r)
            } else {
                history::filtered(rows, filter)
            }
        }),
        text::trim(filter).len() == 0 ==> history::filtered(rows, filter) == rows,
    decreases rows.len(),
{
    let p = |x: RowView| history::passes(x, filter);
    reveal(Seq::filter);
    assert(rows.push(r).drop_last() =~= rows);
    assert(rows.push(r).last() == r);
    if text::trim(filter).len() == 0 {
        text::lemma_lower_empty();
        assert(text::trim(filter) =~= seq![]);
        if rows.len() > 0 {
            lemma_filter_goes_through(rows.drop_last(), r, filter);
            assert(rows.filter(p) =~= rows);
        } else {
            assert(rows.filter(p) =~= rows);
        }
    }
}

/// The three views of the history take turns.
pub proof fn lemma_views_take_turns()
    ensures
        View::Pairs.following() == View::Tracks,
        View::Tracks.following() == View::Fonts,
        View::Fonts.following() == View::Pairs,
{
}

} // verus!
