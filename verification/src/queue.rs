//! What plays next: the queue behind the current track, and what happens when
//! a track ends.

use crate::app;
use crate::app::{
    ask, ask_reveals, App, AppView, Effect, EffectView, PlaySource, PlayState, Source, SourceView,
    World, WorldView,
};
use crate::browser;
use crate::favourites;
use crate::history;
use crate::history::{Row, RowView};
use crate::playlist;
use crate::vfs;
use crate::vfs::{clone_loc, ChildView, DirChild, Disk, FileKind, LocView, Location};
use vstd::prelude::*;

verus! {

/// Which list a [`Step`] came from, and where in it.
#[derive(Clone, Copy, Debug, PartialEq, Eq, Structural)]
pub enum Origin {
    Directory,
    History(usize),
    Favourite(usize),
    Playlist { id: u64, idx: usize },
}

/// The next thing to play, as resolved from the current [`PlaySource`].
#[derive(Debug)]
pub struct Step {
    pub midi: Location,
    /// The SoundFont it must be heard through; `None` keeps the loaded one.
    pub soundfont: Option<Location>,
    pub origin: Origin,
}

/// The next thing to play, as texts.
pub struct StepView {
    pub midi: LocView,
    pub soundfont: Option<LocView>,
    pub origin: Origin,
}

impl View for Step {
    type V = StepView;

    open spec fn view(&self) -> StepView {
        StepView {
            midi: self.midi@,
            soundfont: vfs::opt_view(self.soundfont),
            origin: self.origin,
        }
    }
}

/// The text of an optional step.
pub open spec fn opt_step(s: Option<Step>) -> Option<StepView> {
    match s {
        Some(x) => Some(x@),
        None => None,
    }
}

// --- walking a list ---------------------------------------------------------

/// The place `i` in a list of `n`: past the end it is found from the front
/// again in repeat mode, and nowhere otherwise.
pub open spec fn slot(i: int, n: int, repeat: bool) -> Option<int> {
    if i < n {
        Some(i)
    } else if repeat {
        Some(i % n)
    } else {
        None
    }
}

/// The first place that is `ok` among those from `at + k` up to `at + end`.
pub open spec fn walk(
    ok: spec_fn(int) -> bool,
    at: int,
    k: int,
    end: int,
    n: int,
    repeat: bool,
) -> Option<int>
    decreases end - k,
{
    if k >= end {
        None
    } else {
        match slot(at + k, n, repeat) {
            Some(i) => if ok(i) {
                Some(i)
            } else {
                walk(ok, at, k + 1, end, n, repeat)
            },
            None => None,
        }
    }
}

/// What a walk finds is a place of the list that is `ok`, reached past places
/// that are not. It finds nothing only when every place up to the end of the
/// list (in repeat mode, of the whole pass) is not.
pub proof fn lemma_walk(
    ok: spec_fn(int) -> bool,
    at: int,
    k: int,
    end: int,
    n: int,
    repeat: bool,
)
    requires
        n > 0,
        at + k >= 0,
    ensures
        match walk(ok, at, k, end, n, repeat) {
            Some(i) => 0 <= i < n && ok(i) && exists|j: int|
                k <= j < end && #[trigger] slot(at + j, n, repeat) == Some(i) && forall|m: int|
                    k <= m < j ==> (#[trigger] slot(at + m, n, repeat) matches Some(x) && !ok(x)),
            None => forall|j: int|
                k <= j < end ==> (#[trigger] slot(at + j, n, repeat) matches Some(x) ==> !ok(x)),
        },
    decreases end - k,
{
    if k < end {
        match slot(at + k, n, repeat) {
            Some(i) => {
                assert(0 <= (at + k) % n < n) by (nonlinear_arith)
                    requires
                        n > 0,
                ;
                if ok(i) {
                    assert(slot(at + k, n, repeat) == Some(i));
                } else {
                    lemma_walk(ok, at, k + 1, end, n, repeat);
                    match walk(ok, at, k + 1, end, n, repeat) {
                        Some(x) => {
                            let j = choose|j: int|
                                k + 1 <= j < end && #[trigger] slot(at + j, n, repeat) == Some(x)
                                    && forall|m: int|
                                    k + 1 <= m < j ==> (#[trigger] slot(at + m, n, repeat)
                                        matches Some(y) && !ok(y));
                            assert(slot(at + j, n, repeat) == Some(x));
                            assert forall|m: int| k <= m < j implies (#[trigger] slot(
                                at + m,
                                n,
                                repeat,
                            ) matches Some(y) && !ok(y)) by {
                                if m == k {
                                    assert(slot(at + k, n, repeat) == Some(i));
                                }
                            }
                        },
                        None => {
                            assert forall|j: int| k <= j < end implies (#[trigger] slot(
                                at + j,
                                n,
                                repeat,
                            ) matches Some(x) ==> !ok(x)) by {
                                if j == k {
                                    assert(slot(at + k, n, repeat) == Some(i));
                                }
                            }
                        },
                    }
                }
            },
            None => {
                assert forall|j: int| k <= j < end implies #[trigger] slot(
                    at + j,
                    n,
                    repeat,
                ) is None by {}
            },
        }
    }
}

fn slot_of(at: usize, k: usize, n: usize, repeat: bool) -> (r: Option<usize>)
    requires
        n > 0,
    ensures
        match slot(at + k, n as int, repeat) {
            Some(i) => r matches Some(x) && x == i && x < n,
            None => r is None,
        },
{
    let i: u128 = at as u128 + k as u128;
    if i < n as u128 {
        Some(i as usize)
    } else if repeat {
        let m: u128 = i % n as u128;
        Some(m as usize)
    } else {
        None
    }
}

// --- what follows -----------------------------------------------------------

impl AppView {
    /// True when the row can be played: it has a track that is there, and the
    /// font it names, if any, is there too.
    pub open spec fn row_ready(rows: Seq<RowView>, i: int, disk: Map<Seq<char>, FileKind>) -> bool {
        rows[i].midi matches Some(m) && m.is_present(disk) && !history::missing(
            rows[i].soundfont,
            disk,
        )
    }

    /// What follows the row at `idx` of a queue of history rows.
    pub open spec fn next_history_row(
        self,
        rows: Seq<RowView>,
        idx: int,
        disk: Map<Seq<char>, FileKind>,
    ) -> Option<StepView> {
        let n = rows.len() as int;
        match walk(|i: int| AppView::row_ready(rows, i, disk), idx, 1, n + 1, n, self.repeat) {
            Some(i) => Some(
                StepView {
                    midi: rows[i].midi->0,
                    soundfont: rows[i].soundfont,
                    origin: Origin::History(i as usize),
                },
            ),
            None => None,
        }
    }

    /// True when both sides of a favourite are there.
    pub open spec fn fav_ready(self, i: int, disk: Map<Seq<char>, FileKind>) -> bool {
        self.favs.entries[i].midi.is_present(disk) && self.favs.entries[i].soundfont.is_present(
            disk,
        )
    }

    /// Where a pair is among the favourites, and how far to go on from there.
    /// A pair that was un-starred while it played left its place to the entry
    /// that follows.
    pub open spec fn fav_from(self, midi: LocView, soundfont: LocView, idx: int) -> (int, int) {
        let p = favourites::find_fav(self.favs.entries, (midi.key(), soundfont.key()));
        if p < self.favs.entries.len() {
            (p, 1)
        } else {
            (idx, 0)
        }
    }

    /// What follows a pair in the favourites.
    pub open spec fn next_favourite(
        self,
        midi: LocView,
        soundfont: LocView,
        idx: int,
        disk: Map<Seq<char>, FileKind>,
    ) -> Option<StepView> {
        let n = self.favs.entries.len() as int;
        let (at, first) = self.fav_from(midi, soundfont, idx);
        match walk(|i: int| self.fav_ready(i, disk), at, first, first + n, n, self.repeat) {
            Some(i) => Some(
                StepView {
                    midi: self.favs.entries[i].midi,
                    soundfont: Some(self.favs.entries[i].soundfont),
                    origin: Origin::Favourite(i as usize),
                },
            ),
            None => None,
        }
    }

    /// The font a playlist item plays through: its own, or the user's.
    pub open spec fn item_font(self, i: int) -> Option<LocView> {
        match self.playlist.items[i].soundfont {
            Some(sf) => Some(sf),
            None => self.user_font,
        }
    }

    /// True when a playlist item's track and the font it plays through are
    /// there.
    pub open spec fn item_ready(self, i: int, disk: Map<Seq<char>, FileKind>) -> bool {
        self.item_font(i) matches Some(f) && f.is_present(disk)
            && self.playlist.items[i].midi.is_present(disk)
    }

    /// The step for a playlist item.
    pub open spec fn item_step(self, i: int) -> StepView {
        StepView {
            midi: self.playlist.items[i].midi,
            soundfont: self.item_font(i),
            origin: Origin::Playlist { id: self.playlist.ids[i], idx: i as usize },
        }
    }

    /// Where an item is in the playlist, and how far to go on from there.
    pub open spec fn item_from(self, id: u64, idx: int) -> (int, int) {
        let p = playlist::find_id(self.playlist.ids, id);
        if p < self.playlist.ids.len() {
            (p, 1)
        } else {
            (idx, 0)
        }
    }

    /// What follows an item in the playlist.
    pub open spec fn next_playlist_item(
        self,
        id: u64,
        idx: int,
        disk: Map<Seq<char>, FileKind>,
    ) -> Option<StepView> {
        let n = self.playlist.items.len() as int;
        let (at, first) = self.item_from(id, idx);
        match walk(|i: int| self.item_ready(i, disk), at, first, first + n, n, self.repeat) {
            Some(i) => Some(self.item_step(i)),
            None => None,
        }
    }

    /// What follows the playing entry when the queue is a list (the history,
    /// the favourites or the playlist), whether or not its overlay is open.
    pub open spec fn next_in_list(self, disk: Map<Seq<char>, FileKind>) -> Option<StepView> {
        match self.play_source {
            SourceView::Directory => None,
            SourceView::History { rows, view: _, filter: _, idx } => self.next_history_row(
                rows,
                idx as int,
                disk,
            ),
            SourceView::Favourites { midi, soundfont, idx } => self.next_favourite(
                midi,
                soundfont,
                idx as int,
                disk,
            ),
            SourceView::Playlist { id, idx } => self.next_playlist_item(id, idx as int, disk),
        }
    }

    /// Which overlay the queue belongs to; `None` for the directory.
    pub open spec fn queue_source(self) -> Option<Source> {
        match self.play_source {
            SourceView::Directory => None,
            SourceView::History { .. } => Some(Source::History),
            SourceView::Favourites { .. } => Some(Source::Favourites),
            SourceView::Playlist { .. } => Some(Source::Playlist),
        }
    }

    /// True when the queue plays on past the current track.
    pub open spec fn queue_live(self) -> bool {
        self.queue_source() is None || self.overlay_source() == self.queue_source()
    }

    /// The file that follows `cur` in its directory, in repeat mode from the
    /// front again after the last.
    pub open spec fn next_in_directory(self, cur: LocView, siblings: Seq<ChildView>) -> Option<
        StepView,
    > {
        let files = self.midi.playable(siblings);
        let next = match browser::neighbour(files, cur, true) {
            Some(n) => Some(n),
            None => if self.repeat {
                browser::first_file(files, cur)
            } else {
                None
            },
        };
        match next {
            Some(midi) => Some(StepView { midi, soundfont: None, origin: Origin::Directory }),
            None => None,
        }
    }

    /// What follows `cur`, according to the current play source. `None` means
    /// there is nothing left to play and the player should stop — which is
    /// also the case while the queue's overlay is closed.
    pub open spec fn next_in_source(
        self,
        cur: LocView,
        siblings: Seq<ChildView>,
        disk: Map<Seq<char>, FileKind>,
    ) -> Option<StepView> {
        if !self.queue_live() {
            None
        } else if self.play_source is Directory {
            self.next_in_directory(cur, siblings)
        } else {
            self.next_in_list(disk)
        }
    }

    /// With the queue moved on to a step.
    pub open spec fn stepped(self, s: StepView) -> AppView {
        AppView {
            play_source: match (s.origin, s.soundfont) {
                (Origin::History(i), _) => match self.play_source {
                    SourceView::History { rows, view, filter, idx: _ } => SourceView::History {
                        rows,
                        view,
                        filter,
                        idx: i,
                    },
                    other => other,
                },
                (Origin::Favourite(idx), Some(sf)) => SourceView::Favourites {
                    midi: s.midi,
                    soundfont: sf,
                    idx,
                },
                (Origin::Playlist { id, idx }, _) => SourceView::Playlist { id, idx },
                _ => self.play_source,
            },
            ..self
        }
    }

    /// Loading a step's own font, when it is not the loaded one. Advancing the
    /// queue is not a choice the user made, so it is loaded without a history
    /// record, and does not become the user's font.
    pub open spec fn step_font_effects(self, s: StepView) -> Seq<EffectView> {
        match s.soundfont {
            Some(sf) => if vfs::opt_key(self.soundfont) != Some(sf.key()) {
                seq![EffectView::LoadFont { loc: sf, remember: false, adopt: false }]
            } else {
                seq![]
            },
            None => seq![],
        }
    }

    /// Following a step in the panels. The history and the favourites point
    /// back at files that live somewhere, so the panels follow each entry
    /// there. A playlist does not move them.
    pub open spec fn step_reveal_effects(self, s: StepView) -> Seq<EffectView> {
        if s.origin is History || s.origin is Favourite {
            app::reveals(Some(s.midi), s.soundfont)
        } else {
            seq![]
        }
    }

    pub open spec fn step_effects(self, s: StepView) -> Seq<EffectView> {
        (self.step_font_effects(s) + self.step_reveal_effects(s)).push(
            EffectView::Play { loc: s.midi, count: true },
        )
    }

    /// Once the track `cur` has ended.
    pub open spec fn ended(self, cur: LocView, siblings: Seq<ChildView>, w: WorldView) -> AppView {
        if self.next_mode {
            match self.next_in_source(cur, siblings, w.disk) {
                Some(s) => self.stepped(s),
                // A queue held back only by its closed overlay still has
                // somewhere to go: reopening it puts the cursor there.
                None => AppView {
                    queue_held: !self.queue_live() && self.next_in_list(w.disk) is Some,
                    ..self.stopped(w)
                },
            }
        } else if self.repeat {
            self
        } else {
            self.stopped(w)
        }
    }

    pub open spec fn ended_effects(
        self,
        cur: LocView,
        siblings: Seq<ChildView>,
        w: WorldView,
    ) -> Seq<EffectView> {
        if self.next_mode {
            match self.next_in_source(cur, siblings, w.disk) {
                Some(s) => self.step_effects(s),
                None => self.stop_effects(w.ns),
            }
        } else if self.repeat {
            seq![EffectView::Play { loc: cur, count: false }]
        } else {
            self.stop_effects(w.ns)
        }
    }

    /// Once a moment has passed in which the synth was, or was not, done.
    pub open spec fn ticked(
        self,
        finished: bool,
        siblings: Seq<ChildView>,
        w: WorldView,
    ) -> AppView {
        let c = self.committed(w);
        if self.state != PlayState::Playing || !finished {
            c
        } else {
            match self.now_playing {
                Some(cur) => c.ended(cur, siblings, w),
                None => c.stopped(w),
            }
        }
    }

    pub open spec fn tick_effects(
        self,
        finished: bool,
        siblings: Seq<ChildView>,
        w: WorldView,
    ) -> Seq<EffectView> {
        let c = self.committed(w);
        self.commit_effects(w.ns) + if self.state != PlayState::Playing || !finished {
            seq![]
        } else {
            match self.now_playing {
                Some(cur) => c.ended_effects(cur, siblings, w),
                None => c.stop_effects(w.ns),
            }
        }
    }
}

impl App {
    /// Which overlay the queue belongs to; `None` for the directory.
    pub fn queue_source(&self) -> (r: Option<Source>)
        ensures
            r == self@.queue_source(),
    {
        match &self.play_source {
            PlaySource::Directory => None,
            PlaySource::History { .. } => Some(Source::History),
            PlaySource::Favourites { .. } => Some(Source::Favourites),
            PlaySource::Playlist { .. } => Some(Source::Playlist),
        }
    }

    /// Whether the queue plays on past the current track. A list does only
    /// while its overlay is open; the queue itself is kept while the overlay
    /// is closed, so reopening it carries on from where it was. The directory
    /// always plays on.
    pub fn queue_live(&self) -> (r: bool)
        ensures
            r == self@.queue_live(),
    {
        match (self.queue_source(), self.overlay_source()) {
            (None, _) => true,
            (Some(a), Some(b)) => a == b,
            (Some(_), None) => false,
        }
    }

    /// Walk forward through the history rows the queue was started from,
    /// skipping rows without a track (a SoundFont on its own) and rows whose
    /// files have gone, at most once round. A row without a SoundFont plays
    /// through the loaded one.
    fn next_history_row(&self, rows: &Vec<Row>, idx: usize, disk: &Disk) -> (r: Option<Step>)
        ensures
            opt_step(r) == self@.next_history_row(
                history::row_views(rows@),
                idx as int,
                disk@,
            ),
    {
        let n: usize = rows.len();
        let repeat = self.repeat;
        let ghost rv = history::row_views(rows@);
        let ghost ok = |i: int| AppView::row_ready(rv, i, disk@);
        let mut k: usize = 0;
        while k < n
            invariant
                k <= n,
                n == rows@.len(),
                repeat == self@.repeat,
                rv == history::row_views(rows@),
                ok == (|i: int| AppView::row_ready(rv, i, disk@)),
                walk(ok, idx as int, 1, n + 1, n as int, repeat) == walk(
                    ok,
                    idx as int,
                    k + 1,
                    n + 1,
                    n as int,
                    repeat,
                ),
            decreases n - k,
        {
            k = k + 1;
            match slot_of(idx, k, n, repeat) {
                Some(i) => {
                    assert(rv[i as int] == rows@[i as int]@);
                    match &rows[i].midi {
                        Some(m) => {
                            let font_gone = match &rows[i].soundfont {
                                Some(sf) => !sf.is_present(disk),
                                None => false,
                            };
                            if m.is_present(disk) && !font_gone {
                                assert(ok(i as int));
                                return Some(
                                    Step {
                                        midi: m.clone(),
                                        soundfont: clone_loc(&rows[i].soundfont),
                                        origin: Origin::History(i),
                                    },
                                );
                            }
                        },
                        None => {},
                    }
                    assert(!ok(i as int));
                },
                None => {
                    return None;
                },
            }
        }
        None
    }

    /// Walk forward through the favourites from the entry that just played,
    /// skipping any whose track or SoundFont has gone. The scan is capped at
    /// one pass over the list, so a playlist whose files have all disappeared
    /// stops rather than spinning.
    pub fn next_favourite(
        &self,
        midi: &Location,
        soundfont: &Location,
        idx: usize,
        disk: &Disk,
    ) -> (r: Option<Step>)
        ensures
            opt_step(r) == self@.next_favourite(midi@, soundfont@, idx as int, disk@),
    {
        let n: usize = self.favs.len();
        let repeat = self.repeat;
        // The entry that just played may have been un-starred while it played.
        // If it is gone, carry on with whatever moved into its slot instead of
        // stepping over it; otherwise its current position is authoritative,
        // so a reorder mid-playlist is followed rather than fought.
        let (at, first): (usize, usize) = match self.favs.position_of(midi, soundfont) {
            Some(p) => (p, 1),
            None => (idx, 0),
        };
        let ghost ok = |i: int| self@.fav_ready(i, disk@);
        let mut k: usize = 0;
        while k < n
            invariant
                k <= n,
                n == self@.favs.entries.len(),
                repeat == self@.repeat,
                0 <= first <= 1,
                ok == (|i: int| self@.fav_ready(i, disk@)),
                (at as int, first as int) == self@.fav_from(midi@, soundfont@, idx as int),
                walk(ok, at as int, first as int, first + n, n as int, repeat) == walk(
                    ok,
                    at as int,
                    first + k,
                    first + n,
                    n as int,
                    repeat,
                ),
            decreases n - k,
        {
            match slot_of(at, first + k, n, repeat) {
                Some(i) => match self.favs.get(i) {
                    Some(f) => {
                        if f.midi.is_present(disk) && f.soundfont.is_present(disk) {
                            assert(ok(i as int));
                            return Some(
                                Step {
                                    midi: f.midi.clone(),
                                    soundfont: Some(f.soundfont.clone()),
                                    origin: Origin::Favourite(i),
                                },
                            );
                        }
                        assert(!ok(i as int));
                    },
                    None => {
                        return None;
                    },
                },
                None => {
                    return None;
                },
            }
            k = k + 1;
        }
        None
    }

    /// Walk forward through the playlist from the item that just played,
    /// skipping any that cannot be played now, with the same one-pass cap and
    /// reorder-following as the favourites have.
    pub fn next_playlist_item(&self, id: u64, idx: usize, disk: &Disk) -> (r: Option<Step>)
        requires
            self@.wf(),
        ensures
            opt_step(r) == self@.next_playlist_item(id, idx as int, disk@),
    {
        let n: usize = self.playlist.len();
        let repeat = self.repeat;
        let (at, first): (usize, usize) = match self.playlist.position_of(id) {
            Some(p) => (p, 1),
            None => (idx, 0),
        };
        let ghost ok = |i: int| self@.item_ready(i, disk@);
        let mut k: usize = 0;
        while k < n
            invariant
                k <= n,
                self@.wf(),
                n == self@.playlist.items.len(),
                repeat == self@.repeat,
                0 <= first <= 1,
                ok == (|i: int| self@.item_ready(i, disk@)),
                (at as int, first as int) == self@.item_from(id, idx as int),
                walk(ok, at as int, first as int, first + n, n as int, repeat) == walk(
                    ok,
                    at as int,
                    first + k,
                    first + n,
                    n as int,
                    repeat,
                ),
            decreases n - k,
        {
            match slot_of(at, first + k, n, repeat) {
                Some(i) => {
                    match self.playlist_step(i, disk) {
                        Some(s) => {
                            assert(ok(i as int));
                            return Some(s);
                        },
                        None => {},
                    }
                    assert(!ok(i as int));
                },
                None => {
                    return None;
                },
            }
            k = k + 1;
        }
        None
    }

    /// The step for playlist item `i`, if it can be played now: its track is
    /// there, and so is the font it plays through — its own, or the user's.
    fn playlist_step(&self, i: usize, disk: &Disk) -> (r: Option<Step>)
        requires
            self@.wf(),
        ensures
            opt_step(r) == if i < self@.playlist.items.len() && self@.item_ready(i as int, disk@) {
                Some(self@.item_step(i as int))
            } else {
                None
            },
    {
        match (self.playlist.get(i), self.playlist.id_at(i)) {
            (Some(item), Some(id)) => {
                let font = match &item.soundfont {
                    Some(sf) => Some(sf.clone()),
                    None => clone_loc(&self.user_font),
                };
                match font {
                    Some(f) => if item.midi.is_present(disk) && f.is_present(disk) {
                        Some(
                            Step {
                                midi: item.midi.clone(),
                                soundfont: Some(f),
                                origin: Origin::Playlist { id, idx: i },
                            },
                        )
                    } else {
                        None
                    },
                    None => None,
                }
            },
            _ => None,
        }
    }

    /// What follows the playing entry when the queue is a list (the history,
    /// the favourites or the playlist), whether or not its overlay is open.
    pub fn next_in_list(&self, disk: &Disk) -> (r: Option<Step>)
        requires
            self@.wf(),
        ensures
            opt_step(r) == self@.next_in_list(disk@),
    {
        match &self.play_source {
            PlaySource::Directory => None,
            PlaySource::History { rows, view: _, filter: _, idx } => self.next_history_row(
                rows,
                *idx,
                disk,
            ),
            PlaySource::Favourites { midi, soundfont, idx } => self.next_favourite(
                midi,
                soundfont,
                *idx,
                disk,
            ),
            PlaySource::Playlist { id, idx } => self.next_playlist_item(*id, *idx, disk),
        }
    }
}

// --- moving on --------------------------------------------------------------

impl App {
    /// The directory whose files decide what follows the current track, while
    /// the directory is the queue.
    pub fn queue_directory(&self) -> (r: Option<Location>)
        ensures
            vfs::opt_view(r) == (match (self@.play_source, self@.now_playing) {
                (SourceView::Directory, Some(cur)) => cur.parent(),
                _ => None,
            }),
    {
        match (&self.play_source, &self.now_playing) {
            (PlaySource::Directory, Some(cur)) => cur.parent(),
            _ => None,
        }
    }

    fn next_in_directory(&self, cur: &Location, siblings: &Vec<DirChild>) -> (r: Option<Step>)
        ensures
            opt_step(r) == self@.next_in_directory(cur@, vfs::child_views(siblings@)),
    {
        let next = match self.midi.neighbour_file(cur, true, siblings) {
            Some(n) => Some(n),
            // End of directory: loop back to the first file of the playing
            // file's directory (not wherever the user is now browsing).
            None => if self.repeat {
                self.midi.first_file_of(cur, siblings)
            } else {
                None
            },
        };
        match next {
            Some(midi) => Some(Step { midi, soundfont: None, origin: Origin::Directory }),
            None => None,
        }
    }

    /// What follows `cur`, according to the current play source. `None` means
    /// there is nothing left to play and the player should stop — which is
    /// also the case while the queue's overlay is closed. `siblings` are the
    /// children of [`App::queue_directory`].
    pub fn next_in_source(&self, cur: &Location, siblings: &Vec<DirChild>, disk: &Disk) -> (r:
        Option<Step>)
        requires
            self@.wf(),
        ensures
            opt_step(r) == self@.next_in_source(cur@, vfs::child_views(siblings@), disk@),
    {
        if !self.queue_live() {
            return None;
        }
        match &self.play_source {
            PlaySource::Directory => self.next_in_directory(cur, siblings),
            _ => self.next_in_list(disk),
        }
    }

    fn step_to(&mut self, step: &Step)
        ensures
            final(self)@ == old(self)@.stepped(step@),
    {
        match (step.origin, &step.soundfont) {
            (Origin::History(i), _) => {
                match &mut self.play_source {
                    PlaySource::History { rows: _, view: _, filter: _, idx } => {
                        *idx = i;
                    },
                    _ => {},
                }
            },
            (Origin::Favourite(idx), Some(sf)) => {
                self.play_source = PlaySource::Favourites {
                    midi: step.midi.clone(),
                    soundfont: sf.clone(),
                    idx,
                };
            },
            (Origin::Playlist { id, idx }, _) => {
                self.play_source = PlaySource::Playlist { id, idx };
            },
            _ => {},
        }
    }

    /// Play a step, loading its own SoundFont first when it brought one.
    pub fn play_step(&mut self, step: Step) -> (r: Vec<Effect>)
        ensures
            final(self)@ == old(self)@.stepped(step@),
            app::effects(r@) == old(self)@.step_effects(step@),
    {
        let mut out: Vec<Effect> = Vec::new();
        self.play_step_into(step, &mut out);
        out
    }

    pub(crate) fn play_step_into(&mut self, step: Step, out: &mut Vec<Effect>)
        ensures
            final(self)@ == old(self)@.stepped(step@),
            app::effects(final(out)@) == app::effects(old(out)@) + old(self)@.step_effects(step@),
    {
        let ghost before = app::effects(out@);
        match &step.soundfont {
            Some(sf) => {
                let loaded = match &self.soundfont {
                    Some(cur) => *cur == *sf,
                    None => false,
                };
                if !loaded {
                    ask(out, Effect::LoadFont { loc: sf.clone(), remember: false, adopt: false });
                }
            },
            None => {},
        }
        let ghost mid = app::effects(out@);
        assert(mid =~= before + self@.step_font_effects(step@));
        let follow = match step.origin {
            Origin::History(_) => true,
            Origin::Favourite(_) => true,
            _ => false,
        };
        if follow {
            let midi = Some(step.midi.clone());
            ask_reveals(out, &midi, &step.soundfont);
        }
        assert(app::effects(out@) =~= mid + self@.step_reveal_effects(step@));
        self.step_to(&step);
        ask(out, Effect::Play { loc: step.midi, count: true });
        assert(app::effects(out@) =~= before + old(self)@.step_effects(step@));
    }

    /// Apply the next/repeat modes to `cur`, which has just finished.
    pub fn track_ended(&mut self, cur: Location, siblings: &Vec<DirChild>, world: &World) -> (r:
        Vec<Effect>)
        requires
            old(self)@.wf(),
        ensures
            final(self)@.wf(),
            final(self)@ == old(self)@.ended(cur@, vfs::child_views(siblings@), world@),
            app::effects(r@) == old(self)@.ended_effects(
                cur@,
                vfs::child_views(siblings@),
                world@,
            ),
    {
        if self.next_mode {
            match self.next_in_source(&cur, siblings, &world.disk) {
                Some(step) => self.play_step(step),
                None => {
                    let held = !self.queue_live() && self.next_in_list(&world.disk).is_some();
                    let out = self.stop(world);
                    self.queue_held = held;
                    out
                },
            }
        } else if self.repeat {
            // Loop the current track.
            let mut out: Vec<Effect> = Vec::new();
            ask(&mut out, Effect::Play { loc: cur, count: false });
            out
        } else {
            self.stop(world)
        }
    }

    /// Called once per UI tick: on end-of-song, apply the next/repeat modes.
    ///
    /// | next | repeat | on finish                              |
    /// |------|--------|----------------------------------------|
    /// | off  | off    | stop                                   |
    /// | off  | on     | replay current track (loop track)      |
    /// | on   | off    | play next; stop after the last         |
    /// | on   | on     | play next; wrap to the first           |
    ///
    /// "Next" means the next file in the playing file's directory, or the next
    /// entry of the favourites or the playlist when one of those started this
    /// track — see [`PlaySource`]. The table itself is the same either way.
    ///
    /// `finished` is the player's own word for it, not the tick counter: the
    /// synth can report completion at a tick below (or above) the nominal
    /// total.
    pub fn tick(&mut self, finished: bool, siblings: &Vec<DirChild>, world: &World) -> (r: Vec<
        Effect,
    >)
        requires
            old(self)@.wf(),
        ensures
            final(self)@.wf(),
            final(self)@ == old(self)@.ticked(finished, vfs::child_views(siblings@), world@),
            app::effects(r@) == old(self)@.tick_effects(
                finished,
                vfs::child_views(siblings@),
                world@,
            ),
    {
        proof {
            app::lemma_commit_frame(self@, world@);
        }
        // A combination becomes history as soon as it has been heard long
        // enough, rather than at the end of the track, so it survives a crash
        // and shows up in the overlay while it is still playing.
        let mut out = self.commit_history(world);
        if self.state != PlayState::Playing || !finished {
            return out;
        }
        let ghost before = app::effects(out@);
        let mut more = match clone_loc(&self.now_playing) {
            Some(cur) => self.track_ended(cur, siblings, world),
            None => self.stop(world),
        };
        let ghost after = app::effects(more@);
        out.append(&mut more);
        assert(app::effects(out@) =~= before + after);
        out
    }
}

// --- where the queue is -----------------------------------------------------

/// The place of the first row that stands for entry `i`, or the number of rows.
pub open spec fn find_row(rows: Seq<RowView>, i: usize) -> int
    decreases rows.len(),
{
    if rows.len() == 0 {
        0
    } else if rows[0].idxs.len() > 0 && rows[0].idxs[0] == i {
        0
    } else {
        1 + find_row(rows.drop_first(), i)
    }
}

impl AppView {
    /// Which list is the queue, with the position (from 1) of what is playing
    /// in it, and its length.
    pub open spec fn queue_position(self) -> Option<(Source, int, int)> {
        let (source, found, n) = match self.play_source {
            SourceView::Directory => (Source::History, 0, 0),
            SourceView::History { rows, view: _, filter: _, idx } => (
                Source::History,
                idx as int,
                rows.len() as int,
            ),
            SourceView::Favourites { midi, soundfont, idx } => (
                Source::Favourites,
                self.fav_from(midi, soundfont, idx as int).0,
                self.favs.entries.len() as int,
            ),
            SourceView::Playlist { id, idx } => (
                Source::Playlist,
                self.item_from(id, idx as int).0,
                self.playlist.items.len() as int,
            ),
        };
        if n == 0 {
            None
        } else {
            Some(
                (
                    source,
                    if found < n {
                        found + 1
                    } else {
                        n
                    },
                    n,
                ),
            )
        }
    }

    /// Where in its list the queue is, or — when playback stopped only because
    /// the overlay was closed — where it would go on.
    pub open spec fn queue_at(self, disk: Map<Seq<char>, FileKind>) -> Option<int> {
        let next = if self.queue_held {
            self.next_in_list(disk)
        } else {
            None
        };
        match next {
            Some(s) => match s.origin {
                Origin::History(i) => Some(i as int),
                Origin::Favourite(i) => Some(i as int),
                Origin::Playlist { id: _, idx } => Some(idx as int),
                Origin::Directory => None,
            },
            None => match self.play_source {
                SourceView::History { rows: _, view: _, filter: _, idx } => Some(idx as int),
                _ => match self.queue_position() {
                    Some((_, p, _)) => Some(p - 1),
                    None => None,
                },
            },
        }
    }

    /// Where the cursor goes when the overlay of `source` opens on `rows` while
    /// that list is the queue.
    pub open spec fn queue_cursor(
        self,
        source: Source,
        rows: Seq<RowView>,
        disk: Map<Seq<char>, FileKind>,
    ) -> Option<int> {
        if self.queue_source() != Some(source) {
            None
        } else {
            match self.queue_at(disk) {
                Some(i) => if source == Source::History {
                    Some(i)
                } else {
                    let k = find_row(rows, i as usize);
                    if k < rows.len() {
                        Some(k)
                    } else {
                        None
                    }
                },
                None => None,
            }
        }
    }
}

fn row_of_entry(rows: &Vec<Row>, i: usize) -> (r: Option<usize>)
    ensures
        ({
            let k = find_row(history::row_views(rows@), i);
            match r {
                Some(x) => x == k && k < rows@.len(),
                None => k >= rows@.len(),
            }
        }),
{
    let ghost rv = history::row_views(rows@);
    let mut k: usize = 0;
    assert(rv.skip(0) =~= rv);
    while k < rows.len()
        invariant
            k <= rows@.len(),
            rv == history::row_views(rows@),
            find_row(rv, i) == k + find_row(rv.skip(k as int), i),
        decreases rows.len() - k,
    {
        proof {
            assert(rv.skip(k as int)[0] == rows@[k as int]@);
            assert(rv.skip(k as int).drop_first() =~= rv.skip(k + 1));
        }
        if rows[k].idxs.len() > 0 && rows[k].idxs[0] == i {
            return Some(k);
        }
        k = k + 1;
    }
    assert(rv.skip(k as int).len() == 0);
    None
}

impl App {
    /// Which list is the queue, with the (1-based position, length) of what is
    /// playing in it. `None` while the queue is the directory.
    pub fn queue_position(&self) -> (r: Option<(Source, usize, usize)>)
        requires
            self@.wf(),
        ensures
            match self@.queue_position() {
                Some((s, p, n)) => r matches Some(x) && x.0 == s && x.1 == p && x.2 == n
                    && 1 <= x.1 <= x.2,
                None => r is None,
            },
    {
        // Either list can be emptied, or shortened, while it is the queue.
        let (source, found, n): (Source, usize, usize) = match &self.play_source {
            PlaySource::Directory => {
                return None;
            },
            PlaySource::History { rows, view: _, filter: _, idx } => (
                Source::History,
                *idx,
                rows.len(),
            ),
            PlaySource::Favourites { midi, soundfont, idx } => (
                Source::Favourites,
                match self.favs.position_of(midi, soundfont) {
                    Some(p) => p,
                    None => *idx,
                },
                self.favs.len(),
            ),
            PlaySource::Playlist { id, idx } => (
                Source::Playlist,
                match self.playlist.position_of(*id) {
                    Some(p) => p,
                    None => *idx,
                },
                self.playlist.len(),
            ),
        };
        if n == 0 {
            None
        } else if found < n {
            Some((source, found + 1, n))
        } else {
            Some((source, n, n))
        }
    }

    fn queue_at(&self, disk: &Disk) -> (r: Option<usize>)
        requires
            self@.wf(),
        ensures
            match self@.queue_at(disk@) {
                Some(i) => r matches Some(x) && x == i,
                None => r is None,
            },
    {
        let next = if self.queue_held {
            self.next_in_list(disk)
        } else {
            None
        };
        match next {
            Some(s) => match s.origin {
                Origin::History(i) => Some(i),
                Origin::Favourite(i) => Some(i),
                Origin::Playlist { id: _, idx } => Some(idx),
                Origin::Directory => None,
            },
            None => match &self.play_source {
                PlaySource::History { rows: _, view: _, filter: _, idx } => Some(*idx),
                _ => match self.queue_position() {
                    Some((_, p, _)) => Some(p - 1),
                    None => None,
                },
            },
        }
    }

    /// Where the cursor goes when `source`'s overlay opens on `rows` while
    /// that list is the queue: on the track playing, or — when playback
    /// stopped only because the overlay was closed — on the one that would
    /// have followed, so `Enter` carries on from there.
    pub(crate) fn queue_cursor(&self, source: Source, rows: &Vec<Row>, disk: &Disk) -> (r: Option<
        usize,
    >)
        requires
            self@.wf(),
        ensures
            match self@.queue_cursor(source, history::row_views(rows@), disk@) {
                Some(i) => r matches Some(x) && x == i,
                None => r is None,
            },
    {
        match self.queue_source() {
            Some(q) => if q != source {
                return None;
            },
            None => {
                return None;
            },
        }
        match self.queue_at(disk) {
            Some(i) => match source {
                // The history's rows are the queue's own, one for one.
                Source::History => Some(i),
                _ => row_of_entry(rows, i),
            },
            None => None,
        }
    }
}

} // verus!
