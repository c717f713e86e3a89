//! What working on a list does: taking entries out, moving and starring them,
//! adding to the playlist and pinning SoundFonts, opening, saving and the prompt.

use crate::app::{AppView, EffectView, Panel, PromptKind, PromptView, Source, WorldView};
use crate::ascii;
use crate::browser::EntryView;
use crate::favourites;
use crate::history::RowView;
use crate::history_laws;
use crate::host;
use crate::host::HostView;
use crate::listing_laws;
use crate::lists;
use crate::paths;
use crate::playlist;
use crate::playlist::{DocView, PlaylistView};
use crate::prompt;
use crate::raw;
use crate::sound_laws;
use crate::text;
use crate::vfs;
use crate::vfs::{FileKind, LocView};
use vstd::prelude::*;

verus! {

/// True when the overlay of `b` shows what it showed in `a`, with the rows as
/// they now are and the cursor where it was, as far as there are rows.
pub open spec fn rows_follow(a: AppView, b: AppView, disk: Map<Seq<char>, FileKind>) -> bool {
    let o = a.overlay->0;
    let rows = b.rows_of(o.source, o.view, o.filter, disk);
    &&& b.overlay matches Some(p) && p.rows == rows && p.source == o.source && p.view == o.view
        && p.filter == o.filter && p.filtering == o.filtering
    &&& rows.len() == 0 ==> (b.overlay->0).at is None
    &&& o.at is Some && rows.len() > 0 ==> (b.overlay->0).at == Some(
        (if o.at->0 < rows.len() {
            (o.at->0) as int
        } else {
            rows.len() - 1
        }) as usize,
    )
}

// --- taking out -------------------------------------------------------------

/// Deleting a history row forgets the records it stands for, those and no
/// others, in the history and in its file.
pub proof fn lemma_delete_history_row(a: AppView, row: RowView, disk: Map<Seq<char>, FileKind>)
    requires
        sound_laws::on_row(a, Source::History, row),
        a.history.entries.len() <= usize::MAX,
    ensures
        ({
            let b = a.row_deleted(disk);
            let at = history_laws::left(a.history.entries.len() as int, row.idxs);
            &&& b.history.entries == at.map_values(|i: int| a.history.entries[i])
            &&& forall|i: int|
                #[trigger] at.contains(i) <==> 0 <= i < a.history.entries.len()
                    && !row.idxs.contains(i as usize)
            &&& forall|x: int, y: int| 0 <= x < y < at.len() ==> #[trigger] at[x] < #[trigger] at[y]
            &&& b.favs == a.favs && b.playlist == a.playlist && b.play_source == a.play_source
            &&& rows_follow(a, b, disk)
            &&& a.delete_effects() == seq![EffectView::SaveHistory]
        }),
{
    history_laws::lemma_forget(a.history.entries, row.idxs);
}

/// Deleting a favourite, or taking its star off in the list, takes that pair
/// out of the favourites and nothing else.
pub proof fn lemma_delete_favourite(
    a: AppView,
    row: RowView,
    i: usize,
    w: WorldView,
)
    requires
        sound_laws::on_row(a, Source::Favourites, row),
        row.idxs.len() > 0,
        row.idxs[0] == i,
        i < a.favs.entries.len(),
    ensures
        ({
            let b = a.row_deleted(w.disk);
            &&& b.favs.entries.len() == a.favs.entries.len() - 1
            &&& forall|k: int| 0 <= k < i ==> #[trigger] b.favs.entries[k] == a.favs.entries[k]
            &&& forall|k: int|
                i <= k < b.favs.entries.len() ==> #[trigger] b.favs.entries[k]
                    == a.favs.entries[k + 1]
            &&& b.favs.dirty
            &&& b.history == a.history && b.playlist == a.playlist
            &&& rows_follow(a, b, w.disk)
            &&& a.delete_effects() == seq![EffectView::SaveFavourites]
            &&& a.row_starred(w) == b && a.row_star_effects() == a.delete_effects()
        }),
{
}

/// Deleting a playlist item takes it out of the list, which is then unsaved;
/// nothing is written yet.
pub proof fn lemma_delete_item(
    a: AppView,
    row: RowView,
    i: usize,
    disk: Map<Seq<char>, FileKind>,
)
    requires
        sound_laws::on_row(a, Source::Playlist, row),
        a.playlist.wf(),
        row.idxs.len() > 0,
        row.idxs[0] == i,
        i < a.playlist.items.len(),
    ensures
        ({
            let b = a.row_deleted(disk);
            let n = a.playlist.items.len() - 1;
            &&& b.playlist.items.len() == n && b.playlist.ids.len() == n
            &&& forall|k: int|
                0 <= k < i ==> #[trigger] b.playlist.items[k] == a.playlist.items[k]
                    && b.playlist.ids[k] == a.playlist.ids[k]
            &&& forall|k: int|
                i <= k < n ==> #[trigger] b.playlist.items[k] == a.playlist.items[k + 1]
                    && b.playlist.ids[k] == a.playlist.ids[k + 1]
            &&& b.playlist.dirty && b.playlist.path == a.playlist.path
            &&& b.history == a.history && b.favs == a.favs
            &&& rows_follow(a, b, disk)
            &&& a.delete_effects().len() == 0
        }),
{
}

/// The history is erased by the second `D` in a row, all of it, and not before.
pub proof fn lemma_clear_history(a: AppView, disk: Map<Seq<char>, FileKind>)
    requires
        a.overlay matches Some(o) && o.source == Source::History,
    ensures
        ({
            let b = a.cleared(disk);
            let asked = (a.overlay->0).confirm_clear;
            &&& !asked ==> b.history == a.history && (b.overlay matches Some(o) && o.confirm_clear)
                && a.clear_effects().len() == 0 && b.message == Some(
                "Press D again to erase the whole history"@,
            )
            &&& asked ==> b.history.entries.len() == 0 && (b.overlay matches Some(o)
                && !o.confirm_clear) && a.clear_effects() == seq![EffectView::SaveHistory]
                && b.message == Some("History erased"@)
            &&& b.favs == a.favs && b.playlist == a.playlist
        }),
{
}

// --- moving and starring ----------------------------------------------------

/// Moving a favourite exchanges it with its neighbour in the list, the one
/// below or the one above it, and the cursor goes with it. At either end, and
/// in the history, nothing moves.
pub proof fn lemma_move_favourite(a: AppView, down: bool, disk: Map<Seq<char>, FileKind>, i: int, j: int)
    requires
        a.overlay matches Some(o) && o.source == Source::Favourites && o.at == Some(i as usize),
        0 <= i < (a.overlay->0).rows.len() <= usize::MAX,
        j == if down {
            i + 1
        } else {
            i - 1
        },
        forall|k: int|
            0 <= k < (a.overlay->0).rows.len() ==> (#[trigger] (a.overlay->0).rows[k]).idxs.len()
                > 0 && (a.overlay->0).rows[k].idxs[0] < a.favs.entries.len(),
        forall|k: int, m: int|
            0 <= k < m < (a.overlay->0).rows.len() ==> (#[trigger] (a.overlay->0).rows[k]).idxs[0]
                != (#[trigger] (a.overlay->0).rows[m]).idxs[0],
    ensures
        ({
            let b = a.row_moved(down, disk);
            let rows = (a.overlay->0).rows;
            let n = rows.len();
            &&& 0 <= j < n ==> {
                let x = rows[i].idxs[0] as int;
                let y = rows[j].idxs[0] as int;
                &&& b.favs.entries.len() == a.favs.entries.len()
                &&& b.favs.entries[x] == a.favs.entries[y]
                &&& b.favs.entries[y] == a.favs.entries[x]
                &&& forall|k: int|
                    0 <= k < a.favs.entries.len() && k != x && k != y
                        ==> #[trigger] b.favs.entries[k] == a.favs.entries[k]
                &&& b.favs.dirty
                &&& a.move_effects(down) == seq![EffectView::SaveFavourites]
                &&& j < (b.overlay->0).rows.len() ==> (b.overlay->0).at == Some(j as usize)
            }
            &&& !(0 <= j < n) ==> b == a && a.move_effects(down).len() == 0
        }),
{
}

/// The order of the history is that of time: its rows do not move.
pub proof fn lemma_history_does_not_move(a: AppView, down: bool, disk: Map<Seq<char>, FileKind>)
    requires
        a.overlay matches Some(o) && o.source == Source::History,
    ensures
        a.row_moved(down, disk) == a,
        a.move_effects(down).len() == 0,
{
}

/// Starring a pair puts it at the end of the favourites, with the time; doing so
/// with one that is starred takes it out. It is said either way.
pub proof fn lemma_starred(a: AppView, m: LocView, sf: LocView, now: u64)
    ensures
        ({
            let b = a.starred(m, sf, now);
            let v = a.favs.entries;
            let none = forall|k: int| 0 <= k < v.len() ==> (#[trigger] v[k]).key() != (m.key(), sf.key());
            &&& none ==> b.favs.entries.len() == v.len() + 1 && b.favs.entries.drop_last() == v
                && b.favs.entries.last().midi == m && b.favs.entries.last().soundfont == sf
                && b.favs.entries.last().added == now && b.message == Some(
                "★ "@ + m.file_name() + " + "@ + sf.file_name(),
            )
            &&& forall|i: int|
                0 <= i < v.len() && (#[trigger] v[i]).key() == (m.key(), sf.key()) && (forall|k: int|
                    0 <= k < i ==> (#[trigger] v[k]).key() != (m.key(), sf.key()))
                    ==> b.favs.entries == v.remove(i) && b.message == Some(
                    "Unstarred: "@ + m.file_name() + " + "@ + sf.file_name(),
                )
            &&& b.favs.dirty
            &&& b.history == a.history && b.playlist == a.playlist && b.overlay == a.overlay
        }),
{
    let v = a.favs.entries;
    let k = (m.key(), sf.key());
    let f = favourites::find_fav(v, k);
    favourites::lemma_find_fav(v, k);
    if f >= v.len() {
        assert(a.starred(m, sf, now).favs.entries.drop_last() =~= v);
    } else {
        assert(v[f].key() == k);
        assert forall|i: int|
            0 <= i < v.len() && (#[trigger] v[i]).key() == k && (forall|x: int|
                0 <= x < i ==> (#[trigger] v[x]).key() != k) implies i == f by {
            if i < f {
                assert(v[i].key() != k);
            }
        }
    }
}

/// Starring a row of the history or the playlist stars its track with its
/// SoundFont; an item without one of its own goes by the user's.
pub proof fn lemma_star_row(a: AppView, row: RowView, w: WorldView)
    requires
        sound_laws::on_row(a, Source::History, row) || sound_laws::on_row(
            a,
            Source::Playlist,
            row,
        ),
    ensures
        ({
            let sf = if row.soundfont is None && (a.overlay->0).source == Source::Playlist {
                a.user_font
            } else {
                row.soundfont
            };
            let b = a.row_starred(w);
            &&& row.midi is Some && sf is Some ==> b.favs == a.starred(
                row.midi->0,
                sf->0,
                w.unix,
            ).favs && a.row_star_effects() == seq![EffectView::SaveFavourites] && rows_follow(
                a,
                b,
                w.disk,
            )
            &&& row.midi is None || sf is None ==> b.favs == a.favs && a.row_star_effects().len()
                == 0 && b.message is Some
        }),
{
}

/// The star beside a name: solid when it is starred together with what is on,
/// the loaded SoundFont or the playing track; hollow when it is starred with
/// something else; none otherwise.
pub proof fn lemma_stars(a: AppView, loc: LocView)
    ensures
        ({
            let v = a.favs.entries;
            let with_font = exists|i: int|
                0 <= i < v.len() && (#[trigger] v[i]).midi.key() == loc.key() && a.soundfont
                    is Some && v[i].soundfont.key() == (a.soundfont->0).key();
            let as_midi = exists|i: int| 0 <= i < v.len() && (#[trigger] v[i]).midi.key() == loc.key();
            let with_track = exists|i: int|
                0 <= i < v.len() && (#[trigger] v[i]).soundfont.key() == loc.key() && a.now_playing
                    is Some && v[i].midi.key() == (a.now_playing->0).key();
            let as_font = exists|i: int|
                0 <= i < v.len() && (#[trigger] v[i]).soundfont.key() == loc.key();
            &&& with_font ==> a.star_of(Panel::Midi, loc) == "★"@
            &&& !with_font && as_midi ==> a.star_of(Panel::Midi, loc) == "☆"@
            &&& !as_midi ==> a.star_of(Panel::Midi, loc) == " "@
            &&& with_track ==> a.star_of(Panel::Sf2, loc) == "★"@
            &&& !with_track && as_font ==> a.star_of(Panel::Sf2, loc) == "☆"@
            &&& !as_font ==> a.star_of(Panel::Sf2, loc) == " "@
        }),
{
    let v = a.favs.entries;
    if a.soundfont is Some {
        let k = (loc.key(), (a.soundfont->0).key());
        favourites::lemma_find_fav(v, k);
        let f = favourites::find_fav(v, k);
        if f < v.len() {
            assert(v[f].key() == k);
        }
        assert forall|i: int| 0 <= i < v.len() && f >= v.len() implies (#[trigger] v[i]).key() != k by {}
    }
    if a.now_playing is Some {
        let k = ((a.now_playing->0).key(), loc.key());
        favourites::lemma_find_fav(v, k);
        let f = favourites::find_fav(v, k);
        if f < v.len() {
            assert(v[f].key() == k);
        }
        assert forall|i: int| 0 <= i < v.len() && f >= v.len() implies (#[trigger] v[i]).key() != k by {}
    }
}

// --- the playlist -----------------------------------------------------------

/// The MIDI file at the cursor is added at the end of the playlist, by its full
/// path: alone, or pinned to the loaded SoundFont. The cursor goes on to the
/// next row.
pub proof fn lemma_add(a: AppView, e: EntryView, with_font: bool, host: HostView)
    requires
        a.active == Panel::Midi,
        a.midi.at matches Some(i) && i < a.midi.entries.len() && a.midi.entries[i as int] == e,
        !e.is_dir,
        !listing_laws::is_playlist_name(e.name, true),
        a.midi.entries.len() <= usize::MAX,
    ensures
        ({
            let b = a.added(with_font, host);
            let i = (a.midi.at->0) as int;
            let n = a.playlist.items.len() as int;
            let full = |l: LocView| playlist::absolute_view(l, host.cwd);
            &&& with_font && a.soundfont is None ==> b.playlist == a.playlist && b.message
                is Some && b.midi == a.midi
            &&& !with_font || a.soundfont is Some ==> {
                &&& b.playlist.items.len() == n + 1 && b.playlist.items.drop_last()
                    == a.playlist.items
                &&& b.playlist.items[n].midi == full(e.loc)
                &&& b.playlist.items[n].soundfont == if with_font {
                    Some(full(a.soundfont->0))
                } else {
                    None
                }
                &&& b.playlist.items[n].extra.len() == 0
                &&& b.playlist.ids == a.playlist.ids.push(a.playlist.next_id)
                &&& b.playlist.dirty
                &&& b.playlist.path == a.playlist.path
                &&& b.midi.at == Some(
                    (if i + 1 < a.midi.entries.len() {
                        i + 1
                    } else {
                        i
                    }) as usize,
                )
            }
        }),
{
    listing_laws::lemma_extensions(e.name);
    assert(a.added(with_font, host).playlist.items.len() == a.playlist.items.len() + 1
        ==> a.added(with_font, host).playlist.items.drop_last() =~= a.playlist.items);
}

/// Nothing else than a MIDI file is added: no directory, no playlist, nothing
/// from the right panel.
pub proof fn lemma_add_refused(a: AppView, with_font: bool, host: HostView)
    requires
        a.active == Panel::Sf2 || !(a.midi.at matches Some(i) && i < a.midi.entries.len()) || (
        a.midi.entries[(a.midi.at->0) as int].is_dir) || listing_laws::is_playlist_name(
            a.midi.entries[(a.midi.at->0) as int].name,
            true,
        ),
    ensures
        a.added(with_font, host) == (AppView {
            message: Some("Put the cursor on a MIDI file in the left panel to add it"@),
            ..a
        }),
{
    listing_laws::lemma_extensions(a.midi.entries[(a.midi.at->0) as int].name);
}

/// Pinning sets the SoundFont of the item at the cursor to the loaded one,
/// unpinning takes it away; no other item changes, and the list is unsaved
/// where something did.
pub proof fn lemma_pin(a: AppView, row: RowView, i: usize, pin: bool, w: WorldView)
    requires
        sound_laws::on_row(a, Source::Playlist, row),
        row.idxs.len() > 0,
        row.idxs[0] == i,
        i < a.playlist.items.len(),
        pin ==> a.soundfont is Some,
    ensures
        ({
            let b = a.font_set(pin, w.host, w.disk);
            let font = if pin {
                Some(playlist::absolute_view(a.soundfont->0, w.host.cwd))
            } else {
                None
            };
            &&& b.playlist.items.len() == a.playlist.items.len()
            &&& vfs::opt_key(b.playlist.items[i as int].soundfont) == vfs::opt_key(font)
            &&& b.playlist.items[i as int].midi == a.playlist.items[i as int].midi
            &&& b.playlist.items[i as int].extra == a.playlist.items[i as int].extra
            &&& forall|k: int|
                0 <= k < a.playlist.items.len() && k != i ==> #[trigger] b.playlist.items[k]
                    == a.playlist.items[k]
            &&& vfs::opt_key(a.playlist.items[i as int].soundfont) != vfs::opt_key(font)
                ==> b.playlist.dirty && b.playlist.items[i as int].soundfont == font
            &&& b.playlist.ids == a.playlist.ids
            &&& rows_follow(a, b, w.disk)
        }),
{
}

/// A playlist that was read replaces the one that was open: its tracks, under
/// new identities, its title and its file; it is saved as it stands. The queue
/// lets go of the old list.
pub proof fn lemma_list_opened(a: AppView, path: Seq<char>, d: DocView, i: int)
    requires
        d.items.len() <= u64::MAX,
        0 <= i < d.items.len(),
    ensures
        ({
            let b = a.with_list(path, d);
            &&& b.playlist.items == d.items && b.playlist.title == d.title && b.playlist.header
                == d.header && b.playlist.trailer == d.trailer
            &&& b.playlist.path == Some(path) && !b.playlist.dirty
            &&& b.playlist.ids.len() == d.items.len() && b.playlist.ids[i] == i
                && b.playlist.next_id == d.items.len()
            &&& a.play_source is Playlist ==> b.play_source is Directory
            &&& a.play_source !is Playlist ==> b.play_source == a.play_source
            &&& b.now_playing == a.now_playing && b.state == a.state && b.soundfont == a.soundfont
        }),
{
}

/// What is said of a playlist that was read: its name, how many items it has,
/// and how many lines were not understood, if any were.
pub proof fn lemma_list_message(list: PlaylistView, n: nat)
    ensures
        n == 0 && list.items.len() == 1 ==> lists::loaded_message(list, n) == "Playlist: "@
            + list.name() + " · "@ + (ascii::dec(1) + seq![' '] + "item"@),
        n == 0 && list.items.len() != 1 ==> lists::loaded_message(list, n) == "Playlist: "@
            + list.name() + " · "@ + (ascii::dec(list.items.len()) + seq![' '] + "item"@ + seq!['s']),
        n > 1 && list.items.len() != 1 ==> lists::loaded_message(list, n) == "Playlist: "@
            + list.name() + " · "@ + (ascii::dec(list.items.len()) + seq![' '] + "item"@ + seq!['s'])
            + (" · "@ + (ascii::dec(n) + seq![' '] + "line"@ + seq!['s']) + " ignored"@),
        list.title matches Some(t) ==> list.name() == t,
        list.title is None && list.path is None ==> list.name() == "untitled"@,
{
    assert(lists::counted(list.items.len(), "item"@) =~= ascii::dec(list.items.len()) + seq![' ']
        + "item"@ + if list.items.len() == 1 {
        seq![]
    } else {
        seq!['s']
    });
    let one: Seq<char> = ascii::dec(1) + seq![' '] + "item"@;
    assert(one + seq![] =~= one);
    if n == 0 {
        let m = "Playlist: "@ + list.name() + " · "@ + lists::counted(
            list.items.len(),
            "item"@,
        );
        assert(m + seq![] =~= m);
    }
}

/// Saving: a list with a file of its own is written there, in full; one without,
/// or one that is to be saved under another name, asks for the file. Elsewhere
/// than in the playlist nothing is saved.
pub proof fn lemma_saving(a: AppView, save_as: bool, cwd: Option<Seq<char>>)
    ensures
        ({
            let b = a.saving(save_as);
            let fx = a.saving_effects(save_as, cwd);
            let here = a.overlay matches Some(o) && o.source == Source::Playlist;
            &&& !here ==> b == a && fx.len() == 0
            &&& here && (save_as || a.playlist.path is None) ==> fx.len() == 0 && (b.prompt
                matches Some(p) && p.kind == PromptKind::SavePlaylist && p.confirm is None)
            &&& here && save_as && a.playlist.path is Some ==> (b.prompt->0).buf == raw::shown(
                a.playlist.path->0,
            )
            &&& here && a.playlist.path is None ==> (b.prompt->0).buf == raw::shown(
                paths::join(a.midi.dir.fs_dir(), "playlist.m3u"@),
            )
            &&& here && !save_as && a.playlist.path is Some ==> b == a && fx.len() == 1 && (fx[0]
                matches EffectView::WritePlaylist { path, body, from_prompt } && !from_prompt && path
                == host::absolute_text(a.playlist.path->0, cwd) && body == crate::conf::unlines(
                playlist::doc_lines(
                    DocView {
                        title: a.playlist.title,
                        header: a.playlist.header,
                        items: a.playlist.items,
                        trailer: a.playlist.trailer,
                        ignored: 0,
                    },
                    vfs::dir_of(path),
                ),
            ))
        }),
{
}

// --- the prompt -------------------------------------------------------------

/// A `~` stands for the home directory, alone or before a slash, and nowhere
/// else.
pub proof fn lemma_home(rest: Seq<char>, home: Seq<char>, c: char)
    ensures
        host::tilde(seq!['~'], home) == home,
        host::tilde(seq!['~', '/'] + rest, home) == home + seq!['/'] + rest,
        c != '/' ==> host::tilde(seq!['~', c] + rest, home) == seq!['~', c] + rest,
        c != '~' ==> host::tilde(seq![c] + rest, home) == seq![c] + rest,
{
    let a = seq!['~', '/'] + rest;
    assert(a.take(2) =~= seq!['~', '/']);
    assert(a.skip(2) =~= rest);
    assert(a.len() >= 2 && seq!['~'].len() == 1);
    let b = seq!['~', c] + rest;
    assert(b.len() >= 2);
    if c != '/' {
        assert(b.take(2)[1] == c);
    }
    if c != '~' {
        host::lemma_tilde_absolute(seq![c] + rest, home);
        let d = seq![c] + rest;
        assert(d[0] == c);
    }
}

/// The file that a typed name saves to: as typed where it ends as a playlist
/// does, with `.m3u` at its end otherwise.
pub proof fn lemma_save_target(input: Seq<char>, h: HostView)
    ensures
        listing_laws::is_playlist_name(input, true) ==> prompt::save_target(input, h)
            == host::absolute_text(host::tilde(input, h.home_text()), h.cwd),
        !listing_laws::is_playlist_name(input, true) ==> prompt::save_target(input, h)
            == host::absolute_text(host::tilde(input, h.home_text()) + ".m3u"@, h.cwd),
{
    listing_laws::lemma_extensions(input);
}

/// Going to a directory: the panel in focus goes there, or it is said that it is
/// none; the prompt closes either way.
pub proof fn lemma_goto(a: AppView, p: PromptView, w: WorldView)
    requires
        a.prompt == Some(p),
        p.kind == PromptKind::Goto,
    ensures
        ({
            let dir = host::tilde(text::trim(p.buf), w.host.home_text());
            let b = a.submitted(w);
            let fx = a.submit_effects(w);
            let is_dir = w.disk.contains_key(dir) && w.disk[dir] == FileKind::Dir;
            &&& b.prompt is None
            &&& is_dir ==> fx == seq![EffectView::SetDir { panel: a.active, dir }] && b.message
                is None
            &&& !is_dir ==> fx.len() == 0 && b.message == Some(
                "Not a directory: "@ + text::trim(p.buf),
            )
            &&& b == (AppView { prompt: b.prompt, message: b.message, ..a })
        }),
{
}

/// Saving from the prompt: to the file that was typed, unless nothing was, it is
/// a directory, or it is another file that is there and this was not confirmed.
pub proof fn lemma_save_from_prompt(a: AppView, p: PromptView, w: WorldView)
    requires
        a.prompt == Some(p),
        p.kind == PromptKind::SavePlaylist,
    ensures
        ({
            let input = text::trim(p.buf);
            let to = prompt::save_target(input, w.host);
            let b = a.submitted(w);
            let fx = a.submit_effects(w);
            let is_dir = w.disk.contains_key(to) && w.disk[to] == FileKind::Dir;
            let own = a.playlist.path matches Some(q) && paths::key(q) == paths::key(to);
            let sure = p.confirm matches Some(c) && paths::key(c) == paths::key(to);
            &&& input.len() == 0 || is_dir ==> fx.len() == 0 && b == (AppView {
                message: b.message,
                ..a
            }) && b.message is Some
            &&& input.len() > 0 && !is_dir && w.disk.contains_key(to) && !own && !sure ==> fx.len()
                == 0 && (b.prompt matches Some(n) && n.confirm == Some(to) && n.buf == p.buf)
                && b.playlist == a.playlist
            &&& input.len() > 0 && !is_dir && (!w.disk.contains_key(to) || own || sure) ==> b == a
                && fx.len() == 1 && (fx[0] matches EffectView::WritePlaylist {
                path,
                body,
                from_prompt,
            } && from_prompt && path == host::absolute_text(to, w.host.cwd) && body
                == crate::conf::unlines(playlist::doc_lines(a.playlist.doc(), vfs::dir_of(path))))
        }),
{
}

/// Taking a component off a path: what stands after its last slash goes, and
/// where the path ends in one, what stands before that too.
pub proof fn lemma_delete_component(a: Seq<char>, b: Seq<char>)
    requires
        !b.contains('/'),
        b.len() > 0,
    ensures
        prompt::without_component(a + seq!['/'] + b) == a + seq!['/'],
        prompt::without_component(a + seq!['/'] + b + seq!['/']) == a + seq!['/'],
        prompt::without_component(b).len() == 0,
{
    let s = a + seq!['/'] + b;
    let n = a.len() as int + 1;
    assert forall|i: int| n <= i < s.len() implies s[i] != '/' by {
        assert(s[i] == b[i - n]);
        assert(b.contains(b[i - n]));
    }
    assert(s[n - 1] == '/');
    text::lemma_past_last_is(s, '/', n);
    assert(s.last() == b.last());
    assert(b.contains(b.last()));
    assert(s.take(n) =~= a + seq!['/']);
    let t = s + seq!['/'];
    assert(t.drop_last() =~= s);
    assert forall|i: int| 0 <= i < b.len() implies b[i] != '/' by {
        assert(b.contains(b[i]));
    }
    text::lemma_past_last_is(b, '/', 0);
}

/// Completing a path: with one candidate the path becomes it; with more it grows
/// by what they have in common, and how many there are is said; with none it
/// stays.
pub proof fn lemma_completed(a: AppView, p: PromptView, head: Seq<char>, v: Seq<Seq<char>>)
    requires
        a.prompt == Some(p),
    ensures
        ({
            let b = a.prompt_completed(head, v);
            &&& v.len() == 0 ==> b == a
            &&& v.len() == 1 ==> b.prompt == Some(
                PromptView { buf: head + v[0], confirm: None, ..p },
            ) && b.message == a.message
            &&& v.len() > 1 ==> b.message == Some(ascii::dec(v.len()) + " matches"@) && (b.prompt
                matches Some(n) && (n.buf == p.buf || n.buf == head + prompt::shared_by_all(v)))
            &&& v.len() > 1 && prompt::shared_by_all(v).len() > 0 ==> (b.prompt->0).buf == head
                + prompt::shared_by_all(v)
        }),
{
}

} // verus!
