//! What holds of the application: the queue, the guards against lost work, the
//! stars, the clock and the keys.

use crate::app;
use crate::app::{AppView, DiscardView, EffectView, Panel, PlayState, Source, SourceView, WorldView};
use crate::browser;
use crate::browser_laws;
use crate::favourites;
use crate::favourites_laws;
use crate::history;
use crate::history::RowView;
use crate::host::HostView;
use crate::keys;
use crate::keys::{Code, Key};
use crate::overlay;
use crate::playlist;
use crate::queue;
use crate::queue::{Origin, StepView};
use crate::text;
use crate::vfs;
use crate::vfs::{ChildView, FileKind, LocView};
use vstd::prelude::*;

verus! {

// --- when a track ends ------------------------------------------------------

/// What happens when a track ends, by the two modes: neither stops, repeat
/// alone loops the track without counting another play, next plays on with what
/// follows and stops when nothing does.
pub proof fn lemma_finish_table(a: AppView, cur: LocView, siblings: Seq<ChildView>, w: WorldView)
    ensures
        a.stopped(w).state == PlayState::Stopped,
        !a.next_mode && !a.repeat ==> a.ended(cur, siblings, w) == a.stopped(w) && a.ended_effects(
            cur,
            siblings,
            w,
        ) == a.stop_effects(w.ns),
        !a.next_mode && a.repeat ==> a.ended(cur, siblings, w) == a && a.ended_effects(
            cur,
            siblings,
            w,
        ) == seq![EffectView::Play { loc: cur, count: false }],
        a.next_mode ==> match a.next_in_source(cur, siblings, w.disk) {
            Some(s) => a.ended_effects(cur, siblings, w).last() == (EffectView::Play {
                loc: s.midi,
                count: true,
            }),
            None => a.ended(cur, siblings, w).state == PlayState::Stopped && a.ended_effects(
                cur,
                siblings,
                w,
            ) == a.stop_effects(w.ns),
        },
{
}

/// A list plays on only while its overlay is open: with another overlay or none,
/// the end of the track is the end of playback, and the queue is kept for when
/// the overlay is opened again.
pub proof fn lemma_closed_list_stops(
    a: AppView,
    cur: LocView,
    siblings: Seq<ChildView>,
    w: WorldView,
)
    requires
        a.queue_source() is Some,
        a.overlay_source() != a.queue_source(),
        a.next_mode,
    ensures
        !a.queue_live(),
        a.ended(cur, siblings, w).state == PlayState::Stopped,
        a.ended(cur, siblings, w).play_source == a.play_source,
        a.ended(cur, siblings, w).queue_held == (a.next_in_list(w.disk) is Some),
        a.ended_effects(cur, siblings, w) == a.stop_effects(w.ns),
{
    app::lemma_commit_frame(a, w);
}

/// A list carries on, once its overlay is open again, as if it had never been
/// closed; and the directory plays on regardless of any overlay.
pub proof fn lemma_open_list_plays_on(
    a: AppView,
    cur: LocView,
    siblings: Seq<ChildView>,
    disk: Map<Seq<char>, FileKind>,
)
    ensures
        a.queue_source() is None ==> a.queue_live() && a.next_in_source(cur, siblings, disk)
            == a.next_in_directory(cur, siblings),
        a.queue_source() is Some && a.overlay_source() == a.queue_source() ==> a.queue_live()
            && a.next_in_source(cur, siblings, disk) == a.next_in_list(disk),
{
}

/// The directory of the playing file is played in the order of the panel: each
/// file is followed by the next one, through the font that is loaded, and the
/// last by the first in repeat mode and by nothing otherwise.
pub proof fn lemma_directory_plays_in_order(
    a: AppView,
    siblings: Seq<ChildView>,
    dir: LocView,
    i: int,
    disk: Map<Seq<char>, FileKind>,
)
    requires
        a.play_source is Directory,
        browser_laws::are_children(siblings, dir),
        0 <= i < a.midi.playable(siblings).len(),
    ensures
        ({
            let files = a.midi.playable(siblings);
            let next = a.next_in_source(files[i].loc, siblings, disk);
            if i + 1 < files.len() {
                next == Some(
                    StepView {
                        midi: files[i + 1].loc,
                        soundfont: None,
                        origin: Origin::Directory,
                    },
                )
            } else if a.repeat {
                next == Some(
                    StepView { midi: files[0].loc, soundfont: None, origin: Origin::Directory },
                )
            } else {
                next is None
            }
        }),
{
    browser_laws::lemma_playable(a.midi, siblings, dir);
    browser_laws::lemma_neighbours(a.midi.playable(siblings), i);
}

/// Playing a file from the panel hands the queue back to the directory; loading
/// a font from the panel does not, and makes it the user's font.
pub proof fn lemma_panel_hands_the_queue_back(a: AppView, e: browser::EntryView, host: HostView)
    requires
        a.active_panel().selected() == Some(e),
        !e.is_dir,
        !a.playlist_at_cursor(e),
    ensures
        a.active == Panel::Midi ==> a.activated(host).play_source is Directory
            && a.activate_effects(host) == seq![EffectView::Play { loc: e.loc, count: true }],
        a.active == Panel::Sf2 ==> a.activated(host).play_source == a.play_source
            && a.activate_effects(host) == seq![
            EffectView::LoadFont { loc: e.loc, remember: true, adopt: true },
        ],
{
}

/// Whatever a list plays next can be played: its track is there, and so is the
/// font it comes with. A list of pairs always comes with a font.
pub proof fn lemma_next_is_playable(a: AppView, disk: Map<Seq<char>, FileKind>)
    requires
        a.wf(),
    ensures
        a.next_in_list(disk) matches Some(s) ==> {
            &&& s.midi.is_present(disk)
            &&& s.soundfont matches Some(f) ==> f.is_present(disk)
            &&& !(a.play_source is History) ==> s.soundfont is Some
            &&& a.next_place(disk) is Some
        },
{
    lemma_next_place(a, disk);
}

impl AppView {
    /// How many entries the list has that is the queue.
    pub open spec fn queue_len(self) -> int {
        match self.play_source {
            SourceView::Directory => 0,
            SourceView::History { rows, view: _, filter: _, idx: _ } => rows.len() as int,
            SourceView::Favourites { .. } => self.favs.entries.len() as int,
            SourceView::Playlist { .. } => self.playlist.items.len() as int,
        }
    }

    /// True when the entry at `i` of the queue can be played.
    pub open spec fn queue_ready(self, i: int, disk: Map<Seq<char>, FileKind>) -> bool {
        match self.play_source {
            SourceView::Directory => false,
            SourceView::History { rows, view: _, filter: _, idx: _ } => AppView::row_ready(
                rows,
                i,
                disk,
            ),
            SourceView::Favourites { .. } => self.fav_ready(i, disk),
            SourceView::Playlist { .. } => self.item_ready(i, disk),
        }
    }

    /// Where the queue is in its list, and how far to go on from there.
    pub open spec fn queue_from(self) -> (int, int) {
        match self.play_source {
            SourceView::Directory => (0, 0),
            SourceView::History { rows: _, view: _, filter: _, idx } => (idx as int, 1),
            SourceView::Favourites { midi, soundfont, idx } => self.fav_from(
                midi,
                soundfont,
                idx as int,
            ),
            SourceView::Playlist { id, idx } => self.item_from(id, idx as int),
        }
    }

    /// The place in its list of what the queue plays next.
    pub open spec fn next_place(self, disk: Map<Seq<char>, FileKind>) -> Option<int> {
        match self.next_in_list(disk) {
            Some(s) => match s.origin {
                Origin::History(i) => Some(i as int),
                Origin::Favourite(i) => Some(i as int),
                Origin::Playlist { id: _, idx } => Some(idx as int),
                Origin::Directory => None,
            },
            None => None,
        }
    }

    /// The lists are no longer than a machine can count.
    pub open spec fn countable(self) -> bool {
        self.queue_len() <= usize::MAX
    }
}

/// What a list plays next, as a walk through its places.
proof fn lemma_next_place(a: AppView, disk: Map<Seq<char>, FileKind>)
    requires
        a.wf(),
    ensures
        ({
            let (at, first) = a.queue_from();
            let n = a.queue_len();
            let ok = |i: int| a.queue_ready(i, disk);
            let r = queue::walk(ok, at, first, first + n, n, a.repeat);
            &&& at >= 0
            &&& 0 <= first <= 1
            &&& a.next_in_list(disk) is Some <==> r is Some
            &&& r matches Some(i) ==> 0 <= i < n && a.queue_ready(i, disk)
            &&& a.countable() ==> a.next_place(disk) == r
            &&& a.next_in_list(disk) matches Some(s) ==> a.next_place(disk) is Some
                && s.midi.is_present(disk) && (s.soundfont matches Some(f) ==> f.is_present(disk))
                && (!(a.play_source is History) ==> s.soundfont is Some)
        }),
{
    let (at, first) = a.queue_from();
    let n = a.queue_len();
    let ok = |i: int| a.queue_ready(i, disk);
    match a.play_source {
        SourceView::Directory => {},
        SourceView::History { rows, view: _, filter: _, idx } => {
            let f = |i: int| AppView::row_ready(rows, i, disk);
            assert(f =~= ok);
        },
        SourceView::Favourites { midi, soundfont, idx } => {
            favourites::lemma_find_fav(a.favs.entries, (midi.key(), soundfont.key()));
            let f = |i: int| a.fav_ready(i, disk);
            assert(f =~= ok);
        },
        SourceView::Playlist { id, idx } => {
            playlist::lemma_find_id(a.playlist.ids, id);
            let f = |i: int| a.item_ready(i, disk);
            assert(f =~= ok);
        },
    }
    if n > 0 {
        queue::lemma_walk(ok, at, first, first + n, n, a.repeat);
    }
}

/// Without repeat a list is played in order: what comes next stands further
/// down the list, and every entry passed over on the way cannot be played. With
/// nothing left further down, it ends.
pub proof fn lemma_list_plays_in_order(a: AppView, disk: Map<Seq<char>, FileKind>)
    requires
        a.wf(),
        a.countable(),
        !a.repeat,
    ensures
        ({
            let (at, first) = a.queue_from();
            match a.next_place(disk) {
                Some(i) => at + first <= i < a.queue_len() && a.queue_ready(i, disk) && forall|k: int|
                    at + first <= k < i ==> !#[trigger] a.queue_ready(k, disk),
                None => forall|k: int|
                    at + first <= k < a.queue_len() ==> !#[trigger] a.queue_ready(k, disk),
            }
        }),
{
    lemma_next_place(a, disk);
    let (at, first) = a.queue_from();
    let n = a.queue_len();
    let ok = |i: int| a.queue_ready(i, disk);
    if n > 0 {
        queue::lemma_walk(ok, at, first, first + n, n, false);
        match queue::walk(ok, at, first, first + n, n, false) {
            Some(i) => {
                let j = choose|j: int|
                    first <= j < first + n && #[trigger] queue::slot(at + j, n, false) == Some(i)
                        && forall|m: int|
                        first <= m < j ==> (#[trigger] queue::slot(at + m, n, false) matches Some(x)
                            && !ok(x));
                assert(i == at + j);
                assert forall|k: int| at + first <= k < i implies !#[trigger] a.queue_ready(
                    k,
                    disk,
                ) by {
                    assert(queue::slot(at + (k - at), n, false) == Some(k));
                    assert(!ok(k));
                }
            },
            None => {
                assert forall|k: int| at + first <= k < n implies !#[trigger] a.queue_ready(
                    k,
                    disk,
                ) by {
                    assert(queue::slot(at + (k - at), n, false) == Some(k));
                    assert(!ok(k));
                }
            },
        }
    }
}

/// In repeat mode a list with anything playable in it never ends, and one with
/// nothing playable ends after a single pass.
pub proof fn lemma_repeat_goes_round(a: AppView, disk: Map<Seq<char>, FileKind>)
    requires
        a.wf(),
        a.countable(),
        a.repeat,
    ensures
        a.next_place(disk) is Some <==> exists|i: int|
            0 <= i < a.queue_len() && #[trigger] a.queue_ready(i, disk),
{
    lemma_next_place(a, disk);
    let (at, first) = a.queue_from();
    let n = a.queue_len();
    let ok = |i: int| a.queue_ready(i, disk);
    if n > 0 {
        queue::lemma_walk(ok, at, first, first + n, n, true);
        if exists|i: int| 0 <= i < n && #[trigger] a.queue_ready(i, disk) {
            let i = choose|i: int| 0 <= i < n && #[trigger] a.queue_ready(i, disk);
            let k = (i - at - first) % n;
            let j = first + k;
            assert(0 <= k < n && (at + j) % n == i) by (nonlinear_arith)
                requires
                    n > 0,
                    0 <= i < n,
                    k == (i - at - first) % n,
                    j == first + k,
            {
                let q = (i - at - first) / n;
                assert(i - at - first == q * n + k);
                assert(at + j == i + (-q) * n);
                vstd::arithmetic::div_mod::lemma_mod_multiples_vanish(-q, i, n);
                vstd::arithmetic::div_mod::lemma_small_mod(i as nat, n as nat);
            }
            assert(queue::slot(at + j, n, true) == Some(i)) by {
                if at + j < n {
                    vstd::arithmetic::div_mod::lemma_small_mod((at + j) as nat, n as nat);
                }
            }
            assert(ok(i));
        }
    }
}

// --- the overlay of the queue -----------------------------------------------

/// An empty filter lets every row pass.
proof fn lemma_no_filter(rows: Seq<RowView>)
    ensures
        history::filtered(rows, seq![]) == rows,
    decreases rows.len(),
{
    let none = Seq::<char>::empty();
    assert(text::trim(none) =~= none);
    text::lemma_lower_empty();
    reveal(Seq::filter);
    if rows.len() > 0 {
        lemma_no_filter(rows.drop_last());
        assert(rows.drop_last().push(rows.last()) =~= rows);
    }
}

/// In a list with one row for each entry, the row of entry `i` is the row `i`.
proof fn lemma_row_of(rows: Seq<RowView>, i: int)
    requires
        0 <= i < rows.len() <= usize::MAX,
        forall|k: int| 0 <= k < rows.len() ==> (#[trigger] rows[k]).idxs == seq![k as usize],
    ensures
        queue::find_row(rows, i as usize) == i,
{
    lemma_row_from(rows, i, 0);
    assert(rows.skip(0) =~= rows);
}

proof fn lemma_row_from(rows: Seq<RowView>, i: int, k: int)
    requires
        0 <= k <= i < rows.len() <= usize::MAX,
        forall|j: int| 0 <= j < rows.len() ==> (#[trigger] rows[j]).idxs == seq![j as usize],
    ensures
        queue::find_row(rows.skip(k), i as usize) == i - k,
    decreases i - k,
{
    let t = rows.skip(k);
    assert(t[0] == rows[k]);
    assert(rows[k].idxs[0] == k as usize);
    if k < i {
        lemma_row_from(rows, i, k + 1);
        assert(t.drop_first() =~= rows.skip(k + 1));
    }
}

/// Reopening the overlay of a queue that stopped only because the overlay was
/// closed puts the cursor on what would have played next; nothing starts by
/// itself.
pub proof fn lemma_reopened_on_what_follows(a: AppView, w: WorldView)
    requires
        a.wf(),
        a.countable(),
        a.queue_held,
        a.search is None,
        a.next_place(w.disk) is Some,
    ensures
        ({
            let o = a.opened(a.queue_source()->0, w.disk);
            &&& o.overlay matches Some(x) && x.at == Some(a.next_place(w.disk)->0 as usize)
            &&& o.state == a.state
            &&& o.now_playing == a.now_playing
            &&& o.queue_live()
        }),
{
    reveal(AppView::opened);
    lemma_next_place(a, w.disk);
    let none = Seq::<char>::empty();
    let i = a.next_place(w.disk)->0;
    match a.play_source {
        SourceView::Directory => {},
        SourceView::History { .. } => {},
        SourceView::Favourites { .. } => {
            let rows = favourites::fav_rows(a.favs.entries, a.history.entries, w.disk);
            lemma_no_filter(rows);
            lemma_row_of(rows, i);
        },
        SourceView::Playlist { .. } => {
            let rows = playlist::item_rows(
                a.playlist.items,
                a.history.entries,
                a.user_font,
                w.disk,
            );
            lemma_no_filter(rows);
            lemma_row_of(rows, i);
        },
    }
}

/// While the history is the queue, its overlay shows the queue's rows, in the
/// view and with the filter they were shown with, whatever the log has become;
/// and remembering a play does not change the queue.
pub proof fn lemma_history_queue_is_frozen(a: AppView, w: WorldView)
    requires
        a.play_source is History,
    ensures
        a.committed(w).play_source == a.play_source,
        match a.play_source {
            SourceView::History { rows, view, filter, idx: _ } => {
                let o = a.opened(Source::History, w.disk).overlay->0;
                o.rows == rows && o.view == view && o.filter == filter
            },
            _ => true,
        },
{
    app::lemma_commit_frame(a, w);
    reveal(AppView::opened);
}

/// A playlist leaves the panels where they are; the history and the favourites
/// move them onto each entry.
pub proof fn lemma_which_lists_move_the_panels(a: AppView, disk: Map<Seq<char>, FileKind>)
    ensures
        a.next_in_list(disk) matches Some(s) ==> a.step_reveal_effects(s) == if a.play_source
            is Playlist {
            seq![]
        } else {
            app::reveals(Some(s.midi), s.soundfont)
        },
{
}

// --- the user's font --------------------------------------------------------

/// A font that the queue loads for an entry is neither remembered in the history
/// nor taken for the user's own: only fonts the user chose are.
pub proof fn lemma_queue_keeps_the_users_font(
    a: AppView,
    s: StepView,
    loc: LocView,
    remember: bool,
    w: WorldView,
)
    ensures
        forall|k: int|
            0 <= k < a.step_effects(s).len() ==> ((#[trigger] a.step_effects(s)[k]) matches
                EffectView::LoadFont { loc: _, remember, adopt } ==> !remember && !adopt),
        a.with_font(loc, remember, false, w).user_font == a.user_font,
        a.with_font(loc, remember, true, w).user_font == Some(loc),
        a.with_font(loc, remember, false, w).soundfont == Some(loc),
{
    app::lemma_commit_frame(a, w);
}

/// An item without a font of its own plays through the user's, whatever font
/// was loaded for the item before it.
pub proof fn lemma_unpinned_item_plays_through_the_users_font(
    a: AppView,
    i: int,
    loc: LocView,
    w: WorldView,
)
    requires
        0 <= i < a.playlist.items.len(),
        a.playlist.items[i].soundfont is None,
    ensures
        a.with_font(loc, false, false, w).item_font(i) == a.user_font,
        a.with_font(loc, true, true, w).item_font(i) == Some(loc),
{
    app::lemma_commit_frame(a, w);
}

// --- the stars --------------------------------------------------------------

/// Starring what is heard marks it solid in both panels; with another font
/// loaded that it is not starred with, its star is hollow.
pub proof fn lemma_star_shows(a: AppView, m: LocView, sf: LocView, other: LocView, now: u64)
    requires
        a.now_playing == Some(m),
        a.soundfont == Some(sf),
        favourites_laws::distinct_favs(a.favs.entries),
        !favourites::has_pair(a.favs.entries, m, sf),
        !favourites::has_pair(a.favs.entries, m, other),
        other.key() != sf.key(),
    ensures
        ({
            let b = a.starred(m, sf, now);
            &&& b.star_of(Panel::Midi, m) == "★"@
            &&& b.star_of(Panel::Sf2, sf) == "★"@
            &&& (AppView { soundfont: Some(other), ..b }).star_of(Panel::Midi, m) == "☆"@
        }),
{
    favourites_laws::lemma_toggle(a.favs.entries, m, sf, now);
    let t = favourites::toggled(a.favs.entries, m, sf, now);
    favourites_laws::lemma_pair_has_sides(t, m, sf);
    assert(favourites::has_pair(t, m, other) == favourites::has_pair(a.favs.entries, m, other));
}

/// Starring a new pair and taking the star off again leaves the list as it was.
pub proof fn lemma_star_twice(a: AppView, m: LocView, sf: LocView, now: u64, later: u64)
    requires
        !favourites::has_pair(a.favs.entries, m, sf),
    ensures
        a.starred(m, sf, now).starred(m, sf, later).favs.entries == a.favs.entries,
{
    favourites_laws::lemma_toggle_twice(a.favs.entries, m, sf, now, later);
}

/// Nothing is starred but pairs: without a track and a font, the star key only
/// says so.
pub proof fn lemma_half_a_pair_is_not_starred(a: AppView, w: WorldView)
    requires
        a.now_playing is None || a.soundfont is None,
    ensures
        a.panel_obeyed(keys::PanelCommand::Star, w).favs == a.favs,
        a.panel_effects(keys::PanelCommand::Star, w).len() == 0,
{
}

// --- what has gone ----------------------------------------------------------

/// An entry of which a side has gone reports it, and leaves everything else as
/// it was.
pub proof fn lemma_gone_entry_leaves_all(
    a: AppView,
    midi: Option<LocView>,
    soundfont: Option<LocView>,
    source: SourceView,
    disk: Map<Seq<char>, FileKind>,
)
    requires
        history::gone(midi, soundfont, disk),
    ensures
        a.combined(midi, soundfont, source, disk) == (AppView {
            message: overlay::combination_problem(midi, soundfont, disk),
            ..a
        }),
        overlay::combination_problem(midi, soundfont, disk) is Some,
        a.combined_effects(midi, soundfont, disk).len() == 0,
{
}

// --- guards against lost work -----------------------------------------------

/// Quitting with unsaved changes takes a second keypress in a row; without any,
/// the first one quits. Nothing else changes but the question.
pub proof fn lemma_quit_guard(a: AppView)
    requires
        a.discard_armed is None,
        !a.quit,
    ensures
        a.playlist.dirty ==> !a.quitting().quit && a.quitting().quitting().quit,
        !a.playlist.dirty ==> a.quitting().quit,
        a.quitting().playlist == a.playlist,
{
}

/// Opening a playlist over unsaved changes takes a second keypress on the same
/// file; on another file it asks anew.
pub proof fn lemma_open_guard(a: AppView, p: Seq<char>, q: Seq<char>)
    requires
        a.discard_armed is None,
        crate::paths::key(p) != crate::paths::key(q),
    ensures
        a.playlist.dirty ==> a.opening_effects(p).len() == 0,
        a.playlist.dirty ==> a.opening(p).opening_effects(p) == seq![
            EffectView::OpenPlaylist { path: p },
        ],
        a.playlist.dirty ==> a.opening(p).opening_effects(q).len() == 0,
        !a.playlist.dirty ==> a.opening_effects(p) == seq![EffectView::OpenPlaylist { path: p }],
        a.opening(p).playlist == a.playlist,
{
}

/// A question whether to discard unsaved changes stands only while the key that
/// asked it is pressed again: every key but `q` takes back the question about
/// quitting, and every key but `Enter` the one about opening a playlist. No key
/// changes the playlist that way.
pub proof fn lemma_other_keys_disarm(a: AppView, key: Key)
    ensures
        a.discard_armed == Some(DiscardView::Quit) && key.code != Code::Char('q') && key.code
            != Code::Char('Q') ==> a.met_by(key).discard_armed is None,
        a.discard_armed matches Some(DiscardView::Open(_)) && key.code != Code::Enter ==> a.met_by(
            key,
        ).discard_armed is None,
        a.met_by(key).discard_armed is Some ==> a.met_by(key) == a,
        a.met_by(key).playlist == a.playlist,
{
}

/// Erasing the history takes a second `D` in a row: the first only asks, and any
/// other key takes the question back.
pub proof fn lemma_clear_guard(a: AppView, key: Key, disk: Map<Seq<char>, FileKind>)
    requires
        a.overlay matches Some(o) && o.source == Source::History && !o.confirm_clear,
        key.code != Code::Char('D'),
    ensures
        a.cleared(disk).history == a.history,
        a.clear_effects().len() == 0,
        a.cleared(disk).cleared(disk).history.entries.len() == 0,
        a.cleared(disk).clear_effects() == seq![EffectView::SaveHistory],
        a.cleared(disk).spared(key).overlay == a.overlay,
        a.cleared(disk).spared(key).cleared(disk).history == a.history,
{
}

/// Saving over another file takes a second Enter on the same path; an edit of
/// the line takes the confirmation back. Saving over the playlist's own file
/// does not ask.
pub proof fn lemma_overwrite_guard(a: AppView, p: Seq<char>, buf: Seq<char>, w: WorldView)
    requires
        a.prompt is Some,
        vfs::on_disk(w.disk, p),
    ensures
        ({
            let asked = AppView {
                prompt: Some(app::PromptView { confirm: Some(p), ..a.prompt->0 }),
                ..a
            };
            !asked.asks_overwrite(p, w)
        }),
        a.prompt_edited(buf).asks_overwrite(p, w) == !(a.playlist.path matches Some(q)
            && crate::paths::key(q) == crate::paths::key(p)),
{
}

/// A write that failed leaves the list unsaved, and the prompt open to fix the
/// path; one that succeeded leaves nothing to save.
pub proof fn lemma_written(a: AppView, path: Seq<char>, error: Option<Seq<char>>, from_prompt: bool)
    ensures
        error is Some ==> a.written(path, error, from_prompt).playlist == a.playlist && a.written(
            path,
            error,
            from_prompt,
        ).prompt == a.prompt,
        error is None ==> !a.written(path, error, from_prompt).playlist.dirty && a.written(
            path,
            error,
            from_prompt,
        ).playlist.items == a.playlist.items,
{
}

// --- the clock and the history ----------------------------------------------

/// A combination that was not heard long enough is not remembered, and one that
/// was is remembered once.
pub proof fn lemma_commit_once(a: AppView, w: WorldView)
    ensures
        !a.due(w.ns) ==> a.committed(w) == a && a.commit_effects(w.ns).len() == 0,
        a.due(w.ns) ==> a.committed(w).pending is None,
        a.committed(w).committed(w) == a.committed(w),
        a.committed(w).commit_effects(w.ns).len() == 0,
{
    reveal(AppView::committed);
}

/// The time a track is paused does not count, neither for the readout nor as
/// time heard.
pub proof fn lemma_pause_stops_the_clock(a: AppView, t: u64, later: u64, end: u64)
    requires
        a.state == PlayState::Playing,
        a.shown.time(t) <= u64::MAX,
        a.heard.time(t) <= u64::MAX,
        end >= later,
    ensures
        a.pause_toggled(t).shown.time(later) == a.shown.time(t),
        a.pause_toggled(t).heard.time(later) == a.heard.time(t),
        ({
            let b = a.pause_toggled(t).pause_toggled(later);
            &&& b.shown.time(end) == a.shown.time(t) + (end - later)
            &&& b.heard.time(end) == a.heard.time(t) + (end - later)
            &&& b.state == PlayState::Playing
        }),
{
}

/// How much longer the combination waiting to be remembered has to be heard.
pub open spec fn missing(a: AppView, ns: u64) -> Option<int> {
    match a.pending {
        Some(p) => Some(p.at_ns + app::MIN_LISTEN_NS - a.heard.time(ns)),
        None => None,
    }
}

/// Seeking is not listening: it changes neither whether the combination being
/// listened to is remembered, nor how much longer it has to be heard, then or
/// at any later time. It moves the readout by that many seconds, not below zero.
pub proof fn lemma_seek_is_not_heard(a: AppView, secs: i32, ns: u64, later: u64)
    ensures
        a.sought(secs, ns).pending == a.pending,
        a.sought(secs, ns).due(later) == a.due(later),
        missing(a.sought(secs, ns), later) == missing(a, later),
        a.sought(secs, ns).commit_effects(later) == a.commit_effects(later),
        a.state != PlayState::Stopped ==> a.sought(secs, ns).counted(ns) == app::within(
            a.counted(ns) + secs * 1_000_000_000,
            0,
            u64::MAX as int,
        ),
{
}

/// The volume stays between 0 and 100 percent.
pub proof fn lemma_volume_in_range(a: AppView, t: keys::Transport, w: WorldView)
    requires
        a.volume <= 100,
    ensures
        a.transported(t, w).volume <= 100,
{
    app::lemma_commit_frame(a, w);
}

// --- the keys ---------------------------------------------------------------

/// The help swallows the next keypress.
pub proof fn lemma_help_swallows(a: AppView, key: Key, w: WorldView, position: Option<(i32, i32)>)
    requires
        a.show_help,
    ensures
        a.keyed(key, w) == (AppView { show_help: false, ..a }),
        a.key_effects(key, w, position).len() == 0,
{
}

/// The player keys work inside an overlay just as they do in the panels.
pub proof fn lemma_player_keys_work_in_overlays(
    a: AppView,
    key: Key,
    w: WorldView,
    position: Option<(i32, i32)>,
)
    requires
        a.prompt is None,
        a.search is None,
        a.overlay matches Some(o) ==> !o.filtering && !o.confirm_clear,
        keys::transport_of(key) is Some,
    ensures
        a.mode_keyed(key, w) == a.transported(keys::transport_of(key)->0, w),
        a.mode_effects(key, w, position) == a.transport_effects(
            keys::transport_of(key)->0,
            w,
            position,
        ),
{
    reveal(AppView::mode_keyed);
    reveal(AppView::mode_effects);
}

/// While a filter, a search or the prompt captures keys, a printable key changes
/// nothing that plays.
pub proof fn lemma_captured_keys_play_nothing(
    a: AppView,
    c: char,
    w: WorldView,
    position: Option<(i32, i32)>,
)
    requires
        a.prompt is Some || (a.overlay matches Some(o) && o.filtering) || (a.overlay is None
            && a.search is Some),
    ensures
        a.mode_effects(
            Key { code: Code::Char(c), ctrl: false, alt: false, shift: false },
            w,
            position,
        ).len() == 0,
{
    reveal(AppView::mode_effects);
}

// --- editing the playlist ---------------------------------------------------

/// Adding a track appends one item, marks the list unsaved, and moves the cursor
/// on; what was in the list stays where it was.
pub proof fn lemma_added(a: AppView, with_font: bool, host: crate::host::HostView)
    requires
        a.addable() is Some,
        a.pinned(with_font) is Some,
    ensures
        ({
            let b = a.added(with_font, host);
            &&& b.playlist.items.len() == a.playlist.items.len() + 1
            &&& b.playlist.items.drop_last() == a.playlist.items
            &&& b.playlist.dirty
            &&& b.playlist.items.last().soundfont is Some <==> with_font
            &&& b.midi.at == crate::cursor::down(a.midi.at, 1, a.midi.entries.len() as int)
        }),
{
    assert(a.added(with_font, host).playlist.items.drop_last() =~= a.playlist.items);
}

/// Moving an item of the playlist exchanges it with its neighbour, and the
/// cursor follows it.
pub proof fn lemma_move_follows(a: AppView, down: bool, disk: Map<Seq<char>, FileKind>)
    requires
        a.wf(),
        a.overlay matches Some(o) && o.source == Source::Playlist && o.filter.len() == 0 && o.rows
            == a.rows_of(Source::Playlist, o.view, seq![], disk),
        a.playlist.items.len() <= usize::MAX,
        a.moving(down) is Some,
    ensures
        ({
            let (i, j) = a.moving(down)->0;
            let b = a.row_moved(down, disk);
            &&& j == if down {
                i + 1
            } else {
                i - 1
            }
            &&& b.playlist.items[j] == a.playlist.items[i]
            &&& b.playlist.items[i] == a.playlist.items[j]
            &&& b.playlist.ids[j] == a.playlist.ids[i]
            &&& b.overlay matches Some(o) && o.at == Some(j as usize)
        }),
{
    let o = a.overlay->0;
    let (i, j) = a.moving(down)->0;
    assert(o.filter =~= Seq::<char>::empty());
    let rows = playlist::item_rows(a.playlist.items, a.history.entries, a.user_font, disk);
    lemma_no_filter(rows);
    assert(o.rows == rows);
    assert(rows[i].idxs == seq![i as usize]);
    assert(rows[j].idxs == seq![j as usize]);
    let c = a.entries_swapped(i as usize, j as usize);
    let after = playlist::item_rows(c.playlist.items, c.history.entries, c.user_font, disk);
    lemma_no_filter(after);
}

} // verus!
