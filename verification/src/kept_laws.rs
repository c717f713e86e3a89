//! What the files of the history and the favourites look like, and how their
//! lines are read.

use crate::ascii;
use crate::calendar;
use crate::conf;
use crate::favourites;
use crate::favourites::{FavView, FavouritesView, PartView};
use crate::history;
use crate::history::{EntryView, HistoryView};
use crate::state;
use crate::state::StateView;
use crate::text;
use crate::vfs::LocView;
use vstd::prelude::*;

verus! {

/// The lines of the history file: two comments, then for each record, the
/// newest first, a blank line, its local time as a comment, the mark, and its
/// fields.
pub proof fn lemma_history_lines(s: Seq<EntryView>, e: EntryView, offsets: Seq<i64>)
    ensures
        history::file_lines(seq![], offsets) == seq![
            "# voxfont playing history v1"@,
            "# Newest first. Times below are local."@,
        ],
        ({
            let offset = if s.len() < offsets.len() {
                offsets[s.len() as int] as int
            } else {
                0
            };
            let head = seq![
                ""@,
                "# "@ + calendar::stamp_at(e.when, offset, true),
                "[play]"@,
                "when = "@ + ascii::dec(e.when as nat),
                "plays = "@ + ascii::dec(e.plays as nat),
            ];
            let midi = if e.midi is Some {
                seq!["midi = "@ + (e.midi->0).encode()]
            } else {
                seq![]
            };
            let font = if e.soundfont is Some {
                seq!["sf = "@ + (e.soundfont->0).encode()]
            } else {
                seq![]
            };
            history::file_lines(s.push(e), offsets) == history::file_lines(s, offsets) + (head + midi
                + font)
        }),
{
    reveal_strlit("");
    reveal_strlit("[play]");
    assert(""@ =~= seq![]);
    assert("[play]"@ =~= history::play_mark());
    lemma_pair("when", "when = ", ascii::dec(e.when as nat));
    lemma_pair("plays", "plays = ", ascii::dec(e.plays as nat));
    if e.midi is Some {
        lemma_pair("midi", "midi = ", (e.midi->0).encode());
    }
    if e.soundfont is Some {
        lemma_pair("sf", "sf = ", (e.soundfont->0).encode());
    }
    lemma_entries_push(s, s.len() as int, e, offsets);
    let n = s.len() as int;
    assert(history::file_lines(seq![], offsets) =~= seq![
        "# voxfont playing history v1"@,
        "# Newest first. Times below are local."@,
    ]);
    assert(history::offset_at(offsets, n) == if s.len() < offsets.len() {
        offsets[n] as int
    } else {
        0
    });
    let x = history::entry_lines(e, history::offset_at(offsets, n));
    assert(history::file_lines(s.push(e), offsets) =~= history::file_lines(s, offsets) + x);
}

proof fn lemma_pair(key: &str, start: &str, val: Seq<char>)
    requires
        (key@ == "when"@ && start@ == "when = "@) || (key@ == "plays"@ && start@ == "plays = "@) || (
        key@ == "midi"@ && start@ == "midi = "@) || (key@ == "sf"@ && start@ == "sf = "@) || (key@
            == "added"@ && start@ == "added = "@),
    ensures
        conf::pair_line(key@, val) == start@ + val,
{
    reveal_strlit("when");
    reveal_strlit("when = ");
    reveal_strlit("plays");
    reveal_strlit("plays = ");
    reveal_strlit("midi");
    reveal_strlit("midi = ");
    reveal_strlit("sf");
    reveal_strlit("sf = ");
    reveal_strlit("added");
    reveal_strlit("added = ");
    assert(key@ + seq![' ', '=', ' '] =~= start@);
}

proof fn lemma_entries_push(s: Seq<EntryView>, n: int, e: EntryView, offsets: Seq<i64>)
    requires
        0 <= n <= s.len(),
    ensures
        history::entries_lines(s.push(e), n, offsets) == history::entries_lines(s, n, offsets),
    decreases n,
{
    if n > 0 {
        lemma_entries_push(s, n - 1, e, offsets);
    }
}

/// How the fields of a history record are read: its time, its plays (one where
/// that is no number, or none), its track and its SoundFont. Other keys say
/// nothing.
pub proof fn lemma_history_fields(e: EntryView, key: Seq<char>, val: Seq<char>)
    ensures
        ({
            let f = history::with_field(e, key, val);
            let n = ascii::parse_dec(val, u64::MAX as nat);
            let m = ascii::parse_dec(val, u32::MAX as nat);
            &&& key == "when"@ ==> f == (EntryView {
                when: if n is Some {
                    (n->0) as u64
                } else {
                    0
                },
                ..e
            })
            &&& key == "plays"@ ==> f == (EntryView {
                plays: if m is Some && m->0 > 0 {
                    (m->0) as u32
                } else {
                    1
                },
                ..e
            })
            &&& key == "midi"@ ==> f == (EntryView { midi: Some(LocView::decode(val)), ..e })
            &&& key == "sf"@ ==> f == (EntryView { soundfont: Some(LocView::decode(val)), ..e })
            &&& key != "when"@ && key != "plays"@ && key != "midi"@ && key != "sf"@ ==> f == e
        }),
{
    reveal_strlit("when");
    reveal_strlit("plays");
    reveal_strlit("midi");
    reveal_strlit("sf");
    assert("when"@[0] == 'w' && "midi"@[0] == 'm');
    assert("plays"@.len() == 5 && "sf"@.len() == 2 && "when"@.len() == 4 && "midi"@.len() == 4);
}

/// How the lines of the history file are read: `[play]` starts a record, with a
/// first play; the pairs that follow are its fields; it counts once it has a
/// time and a side.
pub proof fn lemma_history_reading(r: history::Reading, e: EntryView, k: Seq<char>, v: Seq<char>)
    ensures
        conf::line_view("[play]"@, history::play_mark()) is Mark,
        r.step(conf::LineView::Mark) == (history::Reading {
            done: r.finish(),
            cur: Some(EntryView { midi: None, soundfont: None, when: 0, plays: 1 }),
        }),
        r.cur == Some(e) ==> r.step(conf::LineView::Pair { key: k, val: v }) == (history::Reading {
            done: r.done,
            cur: Some(history::with_field(e, k, v)),
        }),
        r.cur is None ==> r.step(conf::LineView::Pair { key: k, val: v }) == r,
        r.step(conf::LineView::Skip) == r,
        r.cur == Some(e) && e.when > 0 && (e.midi is Some || e.soundfont is Some) ==> r.finish()
            == r.done.push(e),
        r.cur == Some(e) && (e.when == 0 || (e.midi is None && e.soundfont is None)) ==> r.finish()
            == r.done,
        r.cur is None ==> r.finish() == r.done,
        history::reading(seq![]).done.len() == 0,
        history::reading(seq![]).cur is None,
{
    reveal_strlit("[play]");
    assert("[play]"@ =~= history::play_mark());
    text::lemma_trim_id("[play]"@);
}

/// A store is written where it is kept, all of it, when it changed; one that has
/// not, or that is kept nowhere, is not written.
pub proof fn lemma_written(h: HistoryView, f: FavouritesView, offsets: Seq<i64>)
    ensures
        h.dirty && h.path is Some ==> history::writing(h, offsets) == Some(
            (h.path->0, conf::unlines(history::file_lines(h.entries, offsets))),
        ),
        !h.dirty || h.path is None ==> history::writing(h, offsets) is None,
        f.dirty && f.path is Some ==> favourites::writing(f, offsets) == Some(
            (f.path->0, conf::unlines(favourites::file_lines(f.entries, offsets))),
        ),
        !f.dirty || f.path is None ==> favourites::writing(f, offsets) is None,
{
}

/// The history that a file gives is its records, the newest first; without the
/// file it is empty.
pub proof fn lemma_history_loaded(path: Seq<char>, body: Option<Seq<char>>)
    ensures
        ({
            let h = history::loaded(path, body);
            &&& h.path == Some(path) && !h.dirty
            &&& history::is_newest_first(h.entries)
            &&& body is None ==> h.entries.len() == 0
            &&& body is Some ==> h.entries.len() == history::parsed(body->0).len() && forall|
                e: EntryView,
            |
                #[trigger] h.entries.contains(e) <==> history::parsed(body->0).contains(e)
        }),
{
    let s = if body is Some {
        history::parsed(body->0)
    } else {
        seq![]
    };
    history::lemma_newest_first(s);
    crate::sorting::lemma_reorder(s, history::when_keys(s));
}

/// The lines of the favourites file: two comments, then for each pair, in the
/// order they play, a blank line, when it was starred as a comment, the mark,
/// and its fields.
pub proof fn lemma_favourites_lines(s: Seq<FavView>, f: FavView, offsets: Seq<i64>)
    ensures
        favourites::file_lines(seq![], offsets) == seq![
            "# voxfont favourites v1"@,
            "# Track + SoundFont pairs, in the order they play. Times below are local."@,
        ],
        ({
            let offset = if s.len() < offsets.len() {
                offsets[s.len() as int] as int
            } else {
                0
            };
            favourites::file_lines(s.push(f), offsets) == favourites::file_lines(s, offsets) + seq![
                ""@,
                "# "@ + calendar::stamp_at(f.added, offset, true),
                "[fav]"@,
                "added = "@ + ascii::dec(f.added as nat),
                "midi = "@ + f.midi.encode(),
                "sf = "@ + f.soundfont.encode(),
            ]
        }),
{
    reveal_strlit("");
    reveal_strlit("[fav]");
    assert(""@ =~= seq![]);
    assert("[fav]"@ =~= favourites::fav_mark());
    lemma_pair("added", "added = ", ascii::dec(f.added as nat));
    lemma_pair("midi", "midi = ", f.midi.encode());
    lemma_pair("sf", "sf = ", f.soundfont.encode());
    lemma_favs_push(s, s.len() as int, f, offsets);
    let n = s.len() as int;
    assert(favourites::file_lines(seq![], offsets) =~= seq![
        "# voxfont favourites v1"@,
        "# Track + SoundFont pairs, in the order they play. Times below are local."@,
    ]);
    assert(history::offset_at(offsets, n) == if s.len() < offsets.len() {
        offsets[n] as int
    } else {
        0
    });
    let x = favourites::fav_lines(f, history::offset_at(offsets, n));
    assert(favourites::file_lines(s.push(f), offsets) =~= favourites::file_lines(s, offsets) + x);
}

proof fn lemma_favs_push(s: Seq<FavView>, n: int, f: FavView, offsets: Seq<i64>)
    requires
        0 <= n <= s.len(),
    ensures
        favourites::favs_lines(s.push(f), n, offsets) == favourites::favs_lines(s, n, offsets),
    decreases n,
{
    if n > 0 {
        lemma_favs_push(s, n - 1, f, offsets);
    }
}

/// How the fields of a favourite are read, and when it counts: once it has both
/// sides.
pub proof fn lemma_favourites_fields(e: PartView, key: Seq<char>, val: Seq<char>, r: favourites::Reading)
    ensures
        ({
            let f = favourites::with_field(e, key, val);
            let n = ascii::parse_dec(val, u64::MAX as nat);
            &&& key == "added"@ ==> f == (PartView {
                added: if n is Some {
                    (n->0) as u64
                } else {
                    0
                },
                ..e
            })
            &&& key == "midi"@ ==> f == (PartView { midi: Some(LocView::decode(val)), ..e })
            &&& key == "sf"@ ==> f == (PartView { soundfont: Some(LocView::decode(val)), ..e })
            &&& key != "added"@ && key != "midi"@ && key != "sf"@ ==> f == e
        }),
        conf::line_view("[fav]"@, favourites::fav_mark()) is Mark,
        r.step(conf::LineView::Mark).done == r.finish(),
        r.step(conf::LineView::Mark).cur == Some(
            PartView { midi: None, soundfont: None, added: 0 },
        ),
        r.cur == Some(e) && e.midi is Some && e.soundfont is Some ==> r.finish() == r.done.push(
            FavView { midi: e.midi->0, soundfont: e.soundfont->0, added: e.added },
        ),
        r.cur == Some(e) && (e.midi is None || e.soundfont is None) ==> r.finish() == r.done,
        r.cur is None ==> r.finish() == r.done,
{
    reveal_strlit("added");
    reveal_strlit("midi");
    reveal_strlit("sf");
    reveal_strlit("[fav]");
    assert("added"@.len() == 5 && "midi"@.len() == 4 && "sf"@.len() == 2);
    assert("[fav]"@ =~= favourites::fav_mark());
    text::lemma_trim_id("[fav]"@);
}

/// The favourites that a file gives are its pairs, in its order.
pub proof fn lemma_favourites_loaded(path: Seq<char>, body: Option<Seq<char>>)
    ensures
        ({
            let f = favourites::loaded(path, body);
            &&& f.path == Some(path) && !f.dirty
            &&& body is None ==> f.entries.len() == 0
            &&& body is Some ==> f.entries == favourites::parsed(body->0)
        }),
{
}

/// How the lines of the session file are read: each key says one thing, and the
/// last line of a key is the one that counts.
pub proof fn lemma_session_fields(s: StateView, key: Seq<char>, val: Seq<char>)
    ensures
        ({
            let t = state::with_field(s, key, val);
            let l = Some(LocView::decode(val));
            &&& key == "midi_dir"@ ==> t == (StateView { midi_dir: l, ..s })
            &&& key == "midi_file"@ ==> t == (StateView { midi_file: l, ..s })
            &&& key == "sf2_dir"@ ==> t == (StateView { sf2_dir: l, ..s })
            &&& key == "soundfont"@ ==> t == (StateView { soundfont: l, ..s })
            &&& key == "playlist"@ ==> t == (StateView { playlist: Some(val), ..s })
            &&& key != "midi_dir"@ && key != "midi_file"@ && key != "sf2_dir"@ && key
                != "soundfont"@ && key != "playlist"@ ==> t == s
        }),
{
    state::lemma_keys_differ();
    reveal_strlit("midi_dir");
    reveal_strlit("midi_file");
    reveal_strlit("sf2_dir");
    reveal_strlit("soundfont");
    reveal_strlit("playlist");
    assert("midi_file"@[0] == 'm' && "soundfont"@[0] == 's');
    assert("midi_dir"@[0] == 'm' && "playlist"@[0] == 'p');
}

/// A place is read as a member of an archive where it starts with `zip` and a
/// tab: the archive up to the next tab and the member behind it. Anything else
/// is a path.
pub proof fn lemma_place_read(a: Seq<char>, b: Seq<char>, s: Seq<char>)
    requires
        !a.contains('\t'),
    ensures
        LocView::decode("zip\t"@ + a + "\t"@ + b) == (LocView::Zip { archive: a, inner: b }),
        LocView::decode("zip\t"@ + a) == (LocView::Zip { archive: a, inner: seq![] }),
        !(s.len() >= 4 && s.take(4) == "zip\t"@) ==> LocView::decode(s) == LocView::Fs(s),
{
    reveal_strlit("zip\t");
    reveal_strlit("\t");
    assert("zip\t"@ =~= seq!['z', 'i', 'p', '\t']);
    assert("\t"@ =~= seq!['\t']);
    let x = "zip\t"@ + a + "\t"@ + b;
    assert(x.take(4) =~= "zip\t"@);
    let rest = x.skip(4);
    assert(rest =~= a + seq!['\t'] + b);
    let n = a.len() as int;
    assert forall|i: int| 0 <= i < n implies a[i] != '\t' by {
        assert(a.contains(a[i]));
    }
    assert forall|i: int| 0 <= i < n implies rest[i] != '\t' by {
        assert(rest[i] == a[i]);
    }
    assert(rest[n] == '\t');
    text::lemma_find_is(rest, '\t', n);
    assert(rest.take(n) =~= a);
    assert(rest.skip(n + 1) =~= b);
    let y = "zip\t"@ + a;
    assert(y.take(4) =~= "zip\t"@);
    assert(y.skip(4) =~= a);
    text::lemma_find_is(a, '\t', n);
}

} // verus!
