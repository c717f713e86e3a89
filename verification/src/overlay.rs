//! The history / favourites / playlist overlay (the `R`, `F` and `P` keys).

use crate::app;
use crate::app::{
    ask, ask_reveals, shorten, App, AppView, Effect, EffectView, Overlay, OverlayView, PlaySource,
    Source, SourceView, World, WorldView,
};
use crate::cursor::Cursor;
use crate::favourites;
use crate::favourites::FavouritesView;
use crate::history;
use crate::history::{clone_rows, HistoryView, Row, RowView, View as LogView};
use crate::playlist::PlaylistView;
use crate::queue::{Origin, Step};
use crate::vfs;
use crate::vfs::{clone_loc, Disk, FileKind, LocView, Location};
use vstd::prelude::*;
use vstd::string::*;

verus! {

// --- opening, and which rows show -------------------------------------------

impl AppView {
    /// What an overlay says when its list is empty.
    pub open spec fn opening_message(self, source: Source) -> Option<Seq<char>> {
        match source {
            Source::History => if self.history.entries.len() == 0 {
                Some("History is empty"@)
            } else {
                None
            },
            Source::Favourites => if self.favs.entries.len() == 0 {
                Some("No favourites yet — press f while a track is playing"@)
            } else {
                None
            },
            Source::Playlist => if self.playlist.items.len() == 0 {
                Some(
                    "The playlist is empty — press a on a MIDI file to add it (A: with the loaded SoundFont)"@,
                )
            } else {
                None
            },
        }
    }

    /// The view, the filter and the rows an overlay opens on: all rows of its
    /// store, or those of the queue while the history is the queue.
    pub open spec fn opening_rows(self, source: Source, disk: Map<Seq<char>, FileKind>) -> (
        LogView,
        Seq<char>,
        Seq<RowView>,
    ) {
        match (self.play_source, source) {
            (SourceView::History { rows, view, filter, idx: _ }, Source::History) => (
                view,
                filter,
                rows,
            ),
            _ => (
                LogView::Pairs,
                seq![],
                self.rows_of(source, LogView::Pairs, seq![], disk),
            ),
        }
    }

    /// Where the cursor of an overlay that opens on `rows` is.
    pub open spec fn opening_at(
        self,
        source: Source,
        rows: Seq<RowView>,
        disk: Map<Seq<char>, FileKind>,
    ) -> Option<usize> {
        let at = match self.queue_cursor(source, rows, disk) {
            Some(i) => i,
            None => 0,
        };
        if rows.len() == 0 {
            None
        } else if at < rows.len() {
            Some(at as usize)
        } else {
            Some((rows.len() - 1) as usize)
        }
    }

    /// With the overlay of a store open. It and the panel filter are exclusive
    /// modes: leaving search restores the full listing behind the overlay.
    #[verifier::opaque]
    pub open spec fn opened(self, source: Source, disk: Map<Seq<char>, FileKind>) -> AppView {
        let a = if self.search is Some {
            self.searching(None)
        } else {
            self
        };
        let (view, filter, rows) = a.opening_rows(source, disk);
        AppView {
            message: a.opening_message(source),
            overlay: Some(
                OverlayView {
                    source,
                    view,
                    at: a.opening_at(source, rows, disk),
                    rows,
                    filter,
                    filtering: false,
                    confirm_clear: false,
                },
            ),
            ..a
        }
    }

    /// With the overlay's filter changed, and its rows with it.
    pub open spec fn refiltered(
        self,
        filter: Seq<char>,
        filtering: bool,
        disk: Map<Seq<char>, FileKind>,
    ) -> AppView {
        match self.overlay {
            Some(o) => (AppView {
                overlay: Some(OverlayView { filter, filtering, ..o }),
                ..self
            }).rebuilt(false, disk),
            None => self,
        }
    }

    /// With the next view of the history, when that is what the overlay shows.
    pub open spec fn view_cycled(self, disk: Map<Seq<char>, FileKind>) -> AppView {
        match self.overlay {
            Some(o) => if o.source == Source::History {
                (AppView {
                    overlay: Some(OverlayView { view: o.view.following(), ..o }),
                    ..self
                }).rebuilt(false, disk)
            } else {
                self
            },
            None => self,
        }
    }
}

impl App {
    pub fn history_open(&mut self, disk: &Disk)
        requires
            old(self)@.wf(),
        ensures
            final(self)@.wf(),
            final(self)@ == old(self)@.opened(Source::History, disk@),
    {
        self.overlay_open(Source::History, disk);
    }

    pub fn favourites_open(&mut self, disk: &Disk)
        requires
            old(self)@.wf(),
        ensures
            final(self)@.wf(),
            final(self)@ == old(self)@.opened(Source::Favourites, disk@),
    {
        self.overlay_open(Source::Favourites, disk);
    }

    pub fn playlist_open(&mut self, disk: &Disk)
        requires
            old(self)@.wf(),
        ensures
            final(self)@.wf(),
            final(self)@ == old(self)@.opened(Source::Playlist, disk@),
    {
        self.overlay_open(Source::Playlist, disk);
    }

    fn opening_rows(&self, source: Source, disk: &Disk) -> (r: (LogView, String, Vec<Row>))
        ensures
            (r.0, r.1@, history::row_views(r.2@)) == self@.opening_rows(source, disk@),
    {
        match (&self.play_source, source) {
            (PlaySource::History { rows, view, filter, idx: _ }, Source::History) => (
                *view,
                filter.clone(),
                clone_rows(rows),
            ),
            _ => {
                let none = String::new();
                let rows = self.overlay_rows(source, LogView::Pairs, none.as_str(), disk);
                (LogView::Pairs, none, rows)
            },
        }
    }

    fn opening_message(&self, source: Source) -> (r: Option<String>)
        ensures
            history::opt_text(r) == self@.opening_message(source),
    {
        match source {
            Source::History => if self.history.is_empty() {
                Some("History is empty".to_owned())
            } else {
                None
            },
            Source::Favourites => if self.favs.is_empty() {
                Some("No favourites yet — press f while a track is playing".to_owned())
            } else {
                None
            },
            Source::Playlist => if self.playlist.is_empty() {
                Some(
                    "The playlist is empty — press a on a MIDI file to add it (A: with the loaded SoundFont)".to_owned(),
                )
            } else {
                None
            },
        }
    }

    #[verifier::rlimit(30)]
    pub fn overlay_open(&mut self, source: Source, disk: &Disk)
        requires
            old(self)@.wf(),
        ensures
            final(self)@.wf(),
            final(self)@ == old(self)@.opened(source, disk@),
    {
        reveal(AppView::opened);
        if self.search.is_some() {
            self.search_cancel();
        }
        // While the history is the queue, its overlay reopens on the queue's
        // rows rather than on the log as it has since become.
        let (view, filter, rows) = self.opening_rows(source, disk);
        let n: usize = rows.len();
        let at: usize = match self.queue_cursor(source, &rows, disk) {
            Some(i) => i,
            None => 0,
        };
        let state = Cursor {
            at: if n == 0 {
                None
            } else if at < n {
                Some(at)
            } else {
                Some(n - 1)
            },
        };
        self.message = self.opening_message(source);
        self.overlay = Some(
            Overlay { source, view, state, rows, filter, filtering: false, confirm_clear: false },
        );
    }

    pub fn overlay_close(&mut self)
        ensures
            final(self)@ == (AppView { overlay: None, ..old(self)@ }),
    {
        self.overlay = None;
    }

    /// True while the overlay's `/` filter is capturing keystrokes.
    pub fn overlay_filtering(&self) -> (r: bool)
        ensures
            r == (self@.overlay matches Some(o) && o.filtering),
    {
        match &self.overlay {
            Some(o) => o.filtering,
            None => false,
        }
    }

    /// Cycle the history overlay between the combination, per-track and
    /// per-SoundFont views of the same log. The favourites have no views.
    pub fn overlay_cycle_view(&mut self, disk: &Disk)
        ensures
            final(self)@ == old(self)@.view_cycled(disk@),
    {
        match &mut self.overlay {
            Some(o) => if o.source == Source::History {
                o.view = o.view.next();
            } else {
                return;
            },
            None => {
                return;
            },
        }
        self.overlay_rebuild(false, disk);
    }

    fn set_overlay_filter(&mut self, filter: String, filtering: bool, disk: &Disk)
        ensures
            final(self)@ == old(self)@.refiltered(filter@, filtering, disk@),
    {
        match &mut self.overlay {
            Some(o) => {
                o.filter = filter;
                o.filtering = filtering;
            },
            None => {
                return;
            },
        }
        self.overlay_rebuild(false, disk);
    }

    pub fn overlay_start_filter(&mut self, disk: &Disk)
        ensures
            final(self)@ == old(self)@.refiltered(seq![], true, disk@),
    {
        self.set_overlay_filter(String::new(), true, disk);
    }

    pub fn overlay_filter_push(&mut self, c: char, disk: &Disk)
        ensures
            final(self)@ == (match old(self)@.overlay {
                Some(o) => old(self)@.refiltered(o.filter.push(c), o.filtering, disk@),
                None => old(self)@,
            }),
    {
        let (f, on) = match &self.overlay {
            Some(o) => {
                let mut f = o.filter.clone();
                f.push(c);
                (f, o.filtering)
            },
            None => {
                return;
            },
        };
        self.set_overlay_filter(f, on, disk);
    }

    pub fn overlay_filter_backspace(&mut self, disk: &Disk)
        ensures
            final(self)@ == (match old(self)@.overlay {
                Some(o) => old(self)@.refiltered(app::shortened(o.filter), o.filtering, disk@),
                None => old(self)@,
            }),
    {
        let (f, on) = match &self.overlay {
            Some(o) => (shorten(o.filter.as_str()), o.filtering),
            None => {
                return;
            },
        };
        self.set_overlay_filter(f, on, disk);
    }

    pub fn overlay_filter_cancel(&mut self, disk: &Disk)
        ensures
            final(self)@ == old(self)@.refiltered(seq![], false, disk@),
    {
        self.set_overlay_filter(String::new(), false, disk);
    }
}

// --- playing a row ----------------------------------------------------------

/// Why a combination cannot be played: a side of it has gone.
pub open spec fn combination_problem(
    midi: Option<LocView>,
    soundfont: Option<LocView>,
    disk: Map<Seq<char>, FileKind>,
) -> Option<Seq<char>> {
    if history::missing(soundfont, disk) {
        Some("SoundFont is gone: "@ + (soundfont->0).display())
    } else if history::missing(midi, disk) {
        Some("File is gone: "@ + (midi->0).display())
    } else {
        None
    }
}

impl AppView {
    /// Playing a combination: the panels follow it, its font is loaded unless
    /// it is the loaded one, then its track starts.
    pub open spec fn combination_effects(
        self,
        midi: Option<LocView>,
        soundfont: Option<LocView>,
    ) -> Seq<EffectView> {
        app::reveals(midi, soundfont) + (match soundfont {
            Some(sf) => if vfs::opt_key(self.soundfont) != Some(sf.key()) {
                seq![EffectView::LoadFont { loc: sf, remember: true, adopt: true }]
            } else {
                seq![]
            },
            None => seq![],
        }) + (match midi {
            Some(m) => seq![EffectView::Play { loc: m, count: true }],
            None => seq![],
        })
    }

    /// With a combination played from a list that becomes the queue.
    pub open spec fn combined(
        self,
        midi: Option<LocView>,
        soundfont: Option<LocView>,
        source: SourceView,
        disk: Map<Seq<char>, FileKind>,
    ) -> AppView {
        match combination_problem(midi, soundfont, disk) {
            Some(m) => self.saying(m),
            None => AppView { play_source: source, ..self },
        }
    }

    pub open spec fn combined_effects(
        self,
        midi: Option<LocView>,
        soundfont: Option<LocView>,
        disk: Map<Seq<char>, FileKind>,
    ) -> Seq<EffectView> {
        match combination_problem(midi, soundfont, disk) {
            Some(_) => seq![],
            None => self.combination_effects(midi, soundfont),
        }
    }

    /// Why a playlist item cannot be played.
    pub open spec fn item_problem(self, i: int, disk: Map<Seq<char>, FileKind>) -> Option<
        Seq<char>,
    > {
        match self.item_font(i) {
            Some(f) => combination_problem(Some(self.playlist.items[i].midi), Some(f), disk),
            None => Some(
                "This item has no SoundFont of its own — load one in the right panel first"@,
            ),
        }
    }

    /// With the row `row` at the place `at` of the open overlay played.
    pub open spec fn row_played(
        self,
        row: RowView,
        at: usize,
        disk: Map<Seq<char>, FileKind>,
    ) -> AppView {
        let o = self.overlay->0;
        match o.source {
            Source::History => (AppView {
                play_source: SourceView::Directory,
                ..self
            }).combined(
                row.midi,
                row.soundfont,
                // A SoundFont-only row just loads the font; there is no track
                // to start the queue with.
                if row.midi is Some {
                    SourceView::History { rows: o.rows, view: o.view, filter: o.filter, idx: at }
                } else {
                    SourceView::Directory
                },
                disk,
            ),
            Source::Favourites => if row.idxs.len() > 0 {
                self.fav_played(row.idxs[0], disk)
            } else {
                self
            },
            Source::Playlist => if row.idxs.len() > 0 {
                self.item_played(row.idxs[0], disk)
            } else {
                self
            },
        }
    }

    /// With the favourite at `idx` played.
    pub open spec fn fav_played(self, idx: usize, disk: Map<Seq<char>, FileKind>) -> AppView {
        if idx < self.favs.entries.len() {
            let f = self.favs.entries[idx as int];
            self.combined(
                Some(f.midi),
                Some(f.soundfont),
                SourceView::Favourites { midi: f.midi, soundfont: f.soundfont, idx },
                disk,
            )
        } else {
            self
        }
    }

    pub open spec fn fav_effects(self, idx: usize, disk: Map<Seq<char>, FileKind>) -> Seq<
        EffectView,
    > {
        if idx < self.favs.entries.len() {
            let f = self.favs.entries[idx as int];
            self.combined_effects(Some(f.midi), Some(f.soundfont), disk)
        } else {
            seq![]
        }
    }

    /// With the playlist item at `idx` played.
    pub open spec fn item_played(self, idx: usize, disk: Map<Seq<char>, FileKind>) -> AppView {
        if idx < self.playlist.items.len() {
            match self.item_problem(idx as int, disk) {
                Some(m) => self.saying(m),
                None => self.stepped(self.item_step(idx as int)),
            }
        } else {
            self
        }
    }

    pub open spec fn item_effects(self, idx: usize, disk: Map<Seq<char>, FileKind>) -> Seq<
        EffectView,
    > {
        if idx < self.playlist.items.len() && self.item_problem(idx as int, disk) is None {
            self.step_effects(self.item_step(idx as int))
        } else {
            seq![]
        }
    }

    pub open spec fn row_effects(self, row: RowView, disk: Map<Seq<char>, FileKind>) -> Seq<
        EffectView,
    > {
        match (self.overlay->0).source {
            Source::History => self.combined_effects(row.midi, row.soundfont, disk),
            Source::Favourites => if row.idxs.len() > 0 {
                self.fav_effects(row.idxs[0], disk)
            } else {
                seq![]
            },
            Source::Playlist => if row.idxs.len() > 0 {
                self.item_effects(row.idxs[0], disk)
            } else {
                seq![]
            },
        }
    }

    /// With the overlay no longer capturing keys.
    pub open spec fn listening(self) -> AppView {
        match self.overlay {
            Some(o) => AppView {
                overlay: Some(OverlayView { filtering: false, ..o }),
                ..self
            },
            None => self,
        }
    }

    /// With the row at the cursor of the overlay played.
    pub open spec fn overlay_activated(self, disk: Map<Seq<char>, FileKind>) -> AppView {
        let a = self.listening();
        match a.overlay {
            Some(o) => match o.selected() {
                Some(row) => a.row_played(row, o.at->0, disk),
                None => a,
            },
            None => a,
        }
    }

    pub open spec fn overlay_activate_effects(self, disk: Map<Seq<char>, FileKind>) -> Seq<
        EffectView,
    > {
        let a = self.listening();
        match a.overlay {
            Some(o) => match o.selected() {
                Some(row) => a.row_effects(row, disk),
                None => seq![],
            },
            None => seq![],
        }
    }
}

fn gone_message(what: &str, l: &Location) -> (r: String)
    ensures
        r@ == what@ + l@.display(),
{
    let mut m = what.to_owned();
    let d = l.display();
    m.append(d.as_str());
    m
}

fn problem_of(midi: &Option<Location>, soundfont: &Option<Location>, disk: &Disk) -> (r: Option<
    String,
>)
    ensures
        history::opt_text(r) == combination_problem(
            vfs::opt_view(*midi),
            vfs::opt_view(*soundfont),
            disk@,
        ),
{
    match soundfont {
        Some(sf) => if !sf.is_present(disk) {
            return Some(gone_message("SoundFont is gone: ", sf));
        },
        None => {},
    }
    match midi {
        Some(m) => if !m.is_present(disk) {
            return Some(gone_message("File is gone: ", m));
        },
        None => {},
    }
    None
}

impl App {
    /// Play a (track, SoundFont) combination the way the overlays do: its
    /// SoundFont is loaded first (unless already loaded), then its track. Both
    /// are locations, so a file inside a zip archive is extracted and played
    /// just like it was the first time. When a side has gone, the panels and
    /// the player are left untouched; otherwise `source` becomes the queue.
    fn play_combination(
        &mut self,
        midi: Option<Location>,
        soundfont: Option<Location>,
        source: PlaySource,
        disk: &Disk,
        out: &mut Vec<Effect>,
    )
        ensures
            final(self)@ == old(self)@.combined(
                vfs::opt_view(midi),
                vfs::opt_view(soundfont),
                source@,
                disk@,
            ),
            app::effects(final(out)@) == app::effects(old(out)@) + old(self)@.combined_effects(
                vfs::opt_view(midi),
                vfs::opt_view(soundfont),
                disk@,
            ),
    {
        let ghost before = app::effects(out@);
        // Check both sides first, so an entry that can no longer be played
        // leaves the panels exactly as they were.
        match problem_of(&midi, &soundfont, disk) {
            Some(m) => {
                self.message = Some(m);
                return;
            },
            None => {},
        }
        self.play_source = source;
        // Follow the entry in the panels before playing it, so the cursor ends
        // up on the file itself — inside the archive when that is where it
        // lives, not parked on the `.zip`.
        ask_reveals(out, &midi, &soundfont);
        match &soundfont {
            Some(sf) => {
                let loaded = match &self.soundfont {
                    Some(cur) => *cur == *sf,
                    None => false,
                };
                if !loaded {
                    ask(out, Effect::LoadFont { loc: sf.clone(), remember: true, adopt: true });
                }
            },
            None => {},
        }
        match &midi {
            Some(m) => ask(out, Effect::Play { loc: m.clone(), count: true }),
            None => {},
        }
        assert(app::effects(out@) =~= before + old(self)@.combination_effects(
            vfs::opt_view(midi),
            vfs::opt_view(soundfont),
        ));
    }

    /// Start (or restart) the playlist at item `idx`. Like a favourite, an
    /// item that cannot be played reports why and leaves everything as it was.
    pub fn play_playlist_at(&mut self, idx: usize, disk: &Disk) -> (r: Vec<Effect>)
        requires
            old(self)@.wf(),
        ensures
            final(self)@ == old(self)@.item_played(idx, disk@),
            app::effects(r@) == old(self)@.item_effects(idx, disk@),
    {
        let mut out: Vec<Effect> = Vec::new();
        if idx < self.playlist.len() {
            self.play_item_into(idx, disk, &mut out);
        }
        out
    }

    /// Start (or restart) the favourites playlist at `idx`.
    pub fn play_favourite_at(&mut self, idx: usize, disk: &Disk) -> (r: Vec<Effect>)
        ensures
            final(self)@ == old(self)@.fav_played(idx, disk@),
            app::effects(r@) == old(self)@.fav_effects(idx, disk@),
    {
        let mut out: Vec<Effect> = Vec::new();
        if idx < self.favs.len() {
            self.play_fav_into(idx, disk, &mut out);
        }
        out
    }

    fn play_item_into(&mut self, idx: usize, disk: &Disk, out: &mut Vec<Effect>)
        requires
            old(self)@.wf(),
            idx < old(self)@.playlist.items.len(),
        ensures
            match old(self)@.item_problem(idx as int, disk@) {
                Some(m) => final(self)@ == old(self)@.saying(m) && final(out)@ == old(out)@,
                None => final(self)@ == old(self)@.stepped(old(self)@.item_step(idx as int))
                    && app::effects(final(out)@) == app::effects(old(out)@)
                    + old(self)@.step_effects(old(self)@.item_step(idx as int)),
            },
    {
        let (midi, own, id) = match (self.playlist.get(idx), self.playlist.id_at(idx)) {
            (Some(i), Some(id)) => (i.midi.clone(), clone_loc(&i.soundfont), id),
            _ => {
                return;
            },
        };
        let font = match own {
            Some(sf) => Some(sf),
            None => clone_loc(&self.user_font),
        };
        match font {
            Some(f) => {
                let m = Some(midi.clone());
                let sf = Some(f.clone());
                match problem_of(&m, &sf, disk) {
                    Some(why) => {
                        self.message = Some(why);
                    },
                    None => {
                        // Unlike the history and the favourites, the panels stay
                        // where they are: a playlist is a list in its own right,
                        // and the directory it was opened from is where the user
                        // means to be when they close it.
                        let step = Step { midi, soundfont: sf, origin: Origin::Playlist { id, idx } };
                        assert(step@ == old(self)@.item_step(idx as int));
                        self.play_step_into(step, out);
                    },
                }
            },
            None => {
                self.say(
                    "This item has no SoundFont of its own — load one in the right panel first",
                );
            },
        }
    }

    fn play_fav_into(&mut self, idx: usize, disk: &Disk, out: &mut Vec<Effect>)
        requires
            idx < old(self)@.favs.entries.len(),
        ensures
            ({
                let f = old(self)@.favs.entries[idx as int];
                final(self)@ == old(self)@.combined(
                    Some(f.midi),
                    Some(f.soundfont),
                    SourceView::Favourites { midi: f.midi, soundfont: f.soundfont, idx },
                    disk@,
                ) && app::effects(final(out)@) == app::effects(old(out)@)
                    + old(self)@.combined_effects(Some(f.midi), Some(f.soundfont), disk@)
            }),
    {
        let (midi, soundfont) = match self.favs.get(idx) {
            Some(f) => (f.midi.clone(), f.soundfont.clone()),
            None => {
                return;
            },
        };
        let source = PlaySource::Favourites {
            midi: midi.clone(),
            soundfont: soundfont.clone(),
            idx,
        };
        self.play_combination(Some(midi), Some(soundfont), source, disk, out);
    }

    fn play_history_row(&mut self, row: Row, at: usize, disk: &Disk, out: &mut Vec<Effect>)
        requires
            old(self)@.overlay matches Some(o) && o.source == Source::History,
        ensures
            final(self)@ == old(self)@.row_played(row@, at, disk@),
            app::effects(final(out)@) == app::effects(old(out)@) + old(self)@.row_effects(
                row@,
                disk@,
            ),
    {
        let source = match &self.overlay {
            Some(o) => if row.midi.is_some() {
                PlaySource::History {
                    rows: clone_rows(&o.rows),
                    view: o.view,
                    filter: o.filter.clone(),
                    idx: at,
                }
            } else {
                PlaySource::Directory
            },
            None => PlaySource::Directory,
        };
        self.play_source = PlaySource::Directory;
        self.play_combination(row.midi, row.soundfont, source, disk, out);
    }

    /// Play the selected row and make its list the queue, from that row on.
    /// From the history that means hearing the entry again exactly as it was,
    /// then the rows below it as they are shown now. The overlay stays open,
    /// since it is what keeps the list playing; only its filter stops
    /// capturing keys, so the transport keys work.
    pub fn overlay_activate(&mut self, disk: &Disk) -> (r: Vec<Effect>)
        requires
            old(self)@.wf(),
        ensures
            final(self)@.wf(),
            final(self)@ == old(self)@.overlay_activated(disk@),
            app::effects(r@) == old(self)@.overlay_activate_effects(disk@),
    {
        let mut out: Vec<Effect> = Vec::new();
        self.stop_filtering();
        let picked = match &self.overlay {
            Some(o) => match (o.selected(), o.state.selected()) {
                (Some(r), Some(at)) => Some((r.clone(), at)),
                _ => None,
            },
            None => None,
        };
        match picked {
            Some((row, at)) => self.play_row(row, at, disk, &mut out),
            None => {},
        }
        out
    }

    fn stop_filtering(&mut self)
        ensures
            final(self)@ == old(self)@.listening(),
    {
        match &mut self.overlay {
            Some(o) => {
                o.filtering = false;
            },
            None => {},
        }
    }

    fn play_row(&mut self, row: Row, at: usize, disk: &Disk, out: &mut Vec<Effect>)
        requires
            old(self)@.wf(),
            old(self)@.overlay is Some,
        ensures
            final(self)@.wf(),
            final(self)@ == old(self)@.row_played(row@, at, disk@),
            app::effects(final(out)@) == app::effects(old(out)@) + old(self)@.row_effects(
                row@,
                disk@,
            ),
    {
        match self.overlay_source() {
            Some(Source::History) => self.play_history_row(row, at, disk, out),
            Some(Source::Favourites) => if row.idxs.len() > 0 {
                let idx: usize = row.idxs[0];
                if idx < self.favs.len() {
                    self.play_fav_into(idx, disk, out);
                }
            },
            Some(Source::Playlist) => if row.idxs.len() > 0 {
                let idx: usize = row.idxs[0];
                if idx < self.playlist.len() {
                    self.play_item_into(idx, disk, out);
                }
            },
            None => {},
        }
    }
}

// --- changing the list ------------------------------------------------------

/// The log without the records at `idxs`.
pub open spec fn forgotten(h: HistoryView, idxs: Seq<usize>) -> HistoryView {
    let rest = history::without(h.entries, idxs);
    HistoryView { entries: rest, dirty: h.dirty || rest.len() < h.entries.len(), ..h }
}

/// The favourites without the one at `i`.
pub open spec fn unstarred(f: FavouritesView, i: usize) -> FavouritesView {
    if i < f.entries.len() {
        FavouritesView { entries: f.entries.remove(i as int), dirty: true, ..f }
    } else {
        f
    }
}

/// The playlist without the item at `i`.
pub open spec fn dropped(p: PlaylistView, i: usize) -> PlaylistView {
    if i < p.items.len() {
        PlaylistView {
            items: p.items.remove(i as int),
            ids: p.ids.remove(i as int),
            dirty: true,
            ..p
        }
    } else {
        p
    }
}

/// The favourites with two exchanged.
pub open spec fn favs_swapped(f: FavouritesView, a: usize, b: usize) -> FavouritesView {
    if a < f.entries.len() && b < f.entries.len() && a != b {
        FavouritesView {
            entries: favourites::swapped(f.entries, a as int, b as int),
            dirty: true,
            ..f
        }
    } else {
        f
    }
}

/// The playlist with two items exchanged.
pub open spec fn items_swapped(p: PlaylistView, a: usize, b: usize) -> PlaylistView {
    if a < p.items.len() && b < p.items.len() && a != b {
        PlaylistView {
            items: favourites::swapped(p.items, a as int, b as int),
            ids: favourites::swapped(p.ids, a as int, b as int),
            dirty: true,
            ..p
        }
    } else {
        p
    }
}

impl AppView {
    /// The row at the cursor of the overlay.
    pub open spec fn overlay_row(self) -> Option<RowView> {
        match self.overlay {
            Some(o) => o.selected(),
            None => None,
        }
    }

    /// With what a row stands for taken out of its store.
    pub open spec fn without_row(self, source: Source, idxs: Seq<usize>) -> AppView {
        match source {
            Source::History => AppView { history: forgotten(self.history, idxs), ..self },
            Source::Favourites => if idxs.len() > 0 {
                AppView { favs: unstarred(self.favs, idxs[0]), ..self }
            } else {
                self
            },
            Source::Playlist => if idxs.len() > 0 {
                AppView { playlist: dropped(self.playlist, idxs[0]), ..self }
            } else {
                self
            },
        }
    }

    /// With the selected row dropped.
    pub open spec fn row_deleted(self, disk: Map<Seq<char>, FileKind>) -> AppView {
        match self.overlay_row() {
            Some(r) => self.without_row((self.overlay->0).source, r.idxs).rebuilt(true, disk),
            None => self,
        }
    }

    pub open spec fn delete_effects(self) -> Seq<EffectView> {
        match self.overlay_row() {
            Some(r) => match (self.overlay->0).source {
                Source::History => seq![EffectView::SaveHistory],
                Source::Favourites => if r.idxs.len() > 0 {
                    seq![EffectView::SaveFavourites]
                } else {
                    seq![]
                },
                Source::Playlist => seq![],
            },
            None => seq![],
        }
    }

    /// The pair that starring the selected row means: a playlist item through
    /// the font it plays through.
    pub open spec fn row_pair(self) -> Option<(LocView, LocView)> {
        match self.overlay_row() {
            Some(r) => {
                let sf = match ((self.overlay->0).source, r.soundfont) {
                    (Source::Playlist, None) => self.user_font,
                    (_, x) => x,
                };
                match (r.midi, sf) {
                    (Some(m), Some(f)) => Some((m, f)),
                    _ => None,
                }
            },
            None => None,
        }
    }

    /// With the star on the selected row toggled.
    pub open spec fn row_starred(self, w: WorldView) -> AppView {
        if self.overlay_row() is None {
            self
        } else if self.overlay_source() == Some(Source::Favourites) {
            self.row_deleted(w.disk)
        } else {
            match self.row_pair() {
                Some((m, f)) => self.starred(m, f, w.unix).rebuilt(true, w.disk),
                None => self.saying(
                    "Not a pair — a favourite needs both a track and a SoundFont"@,
                ),
            }
        }
    }

    pub open spec fn row_star_effects(self) -> Seq<EffectView> {
        if self.overlay_row() is None {
            seq![]
        } else if self.overlay_source() == Some(Source::Favourites) {
            self.delete_effects()
        } else if self.row_pair() is Some {
            seq![EffectView::SaveFavourites]
        } else {
            seq![]
        }
    }

    /// The places of the selected row and of its neighbour that a move
    /// exchanges.
    pub open spec fn moving(self, down: bool) -> Option<(int, int)> {
        match self.overlay {
            Some(o) => {
                let i = match o.at {
                    Some(i) => i as int,
                    None => 0,
                };
                let j = if down {
                    i + 1
                } else {
                    i - 1
                };
                if o.source != Source::History && 0 <= i < o.rows.len() && 0 <= j < o.rows.len()
                    && o.rows[i].idxs.len() > 0 && o.rows[j].idxs.len() > 0 {
                    Some((i, j))
                } else {
                    None
                }
            },
            None => None,
        }
    }

    /// With the entries at `a` and `b` of the overlay's list exchanged.
    pub open spec fn entries_swapped(self, a: usize, b: usize) -> AppView {
        if self.overlay_source() == Some(Source::Playlist) {
            AppView { playlist: items_swapped(self.playlist, a, b), ..self }
        } else {
            AppView { favs: favs_swapped(self.favs, a, b), ..self }
        }
    }

    /// With the cursor of the overlay on the row `j`, or on the last.
    pub open spec fn overlay_on(self, j: int) -> AppView {
        match self.overlay {
            Some(o) => AppView {
                overlay: Some(
                    OverlayView {
                        at: Some(
                            (if j < o.rows.len() {
                                j
                            } else if o.rows.len() > 0 {
                                o.rows.len() - 1
                            } else {
                                0
                            }) as usize,
                        ),
                        ..o
                    },
                ),
                ..self
            },
            None => self,
        }
    }

    /// With the selected row moved one place along its list, the cursor
    /// following it.
    pub open spec fn row_moved(self, down: bool, disk: Map<Seq<char>, FileKind>) -> AppView {
        match self.moving(down) {
            Some((i, j)) => {
                let rows = (self.overlay->0).rows;
                self.entries_swapped(rows[i].idxs[0], rows[j].idxs[0]).rebuilt(
                    true,
                    disk,
                ).overlay_on(j)
            },
            None => self,
        }
    }

    pub open spec fn move_effects(self, down: bool) -> Seq<EffectView> {
        if self.moving(down) is Some && self.overlay_source() == Some(Source::Favourites) {
            seq![EffectView::SaveFavourites]
        } else {
            seq![]
        }
    }

    /// With the question whether to erase everything asked, or taken back.
    pub open spec fn asking(self, ask: bool) -> AppView {
        match self.overlay {
            Some(o) => AppView {
                overlay: Some(OverlayView { confirm_clear: ask, ..o }),
                ..self
            },
            None => self,
        }
    }

    /// With the history cleared, or first the question asked.
    pub open spec fn cleared(self, disk: Map<Seq<char>, FileKind>) -> AppView {
        if self.overlay_source() != Some(Source::History) {
            self
        } else if !(self.overlay->0).confirm_clear {
            self.asking(true).saying("Press D again to erase the whole history"@)
        } else {
            (AppView {
                history: if self.history.entries.len() > 0 {
                    HistoryView { entries: seq![], dirty: true, ..self.history }
                } else {
                    self.history
                },
                ..self.asking(false)
            }).rebuilt(false, disk).saying("History erased"@)
        }
    }

    pub open spec fn clear_effects(self) -> Seq<EffectView> {
        if self.overlay_source() == Some(Source::History) && (self.overlay->0).confirm_clear {
            seq![EffectView::SaveHistory]
        } else {
            seq![]
        }
    }
}

impl App {
    /// The source of the open overlay and a copy of its selected row.
    fn picked_row(&self) -> (r: Option<(Source, Row)>)
        ensures
            match self@.overlay_row() {
                Some(x) => r matches Some(y) && y.1@ == x && self@.overlay_source() == Some(y.0),
                None => r is None,
            },
    {
        match &self.overlay {
            Some(o) => match o.selected() {
                Some(r) => Some((o.source, r.clone())),
                None => None,
            },
            None => None,
        }
    }

    /// Point both panels at the selected row without playing it, the way `G`
    /// does for what is currently playing.
    pub fn overlay_reveal(&mut self) -> (r: Vec<Effect>)
        ensures
            match old(self)@.overlay_row() {
                Some(row) => final(self)@ == (AppView { overlay: None, ..old(self)@ })
                    && app::effects(r@) == app::reveals(row.midi, row.soundfont),
                None => final(self)@ == old(self)@ && r@.len() == 0,
            },
    {
        let mut out: Vec<Effect> = Vec::new();
        match self.picked_row() {
            Some((_, row)) => {
                self.overlay = None;
                ask_reveals(&mut out, &row.midi, &row.soundfont);
            },
            None => {},
        }
        out
    }

    #[verifier::rlimit(30)]
    fn drop_entries(&mut self, source: Source, idxs: &Vec<usize>)
        requires
            old(self)@.wf(),
        ensures
            final(self)@.wf(),
            final(self)@ == old(self)@.without_row(source, idxs@),
    {
        match source {
            Source::History => self.history.forget(idxs),
            Source::Favourites => if idxs.len() > 0 {
                self.favs.remove(idxs[0]);
            },
            Source::Playlist => if idxs.len() > 0 {
                self.playlist.remove(idxs[0]);
            },
        }
    }

    /// Drop the selected row: forget it from the history (in a grouped view,
    /// every entry behind it), take the star off a favourite, or remove the
    /// item from the playlist.
    pub fn overlay_delete(&mut self, disk: &Disk) -> (r: Vec<Effect>)
        requires
            old(self)@.wf(),
        ensures
            final(self)@.wf(),
            final(self)@ == old(self)@.row_deleted(disk@),
            app::effects(r@) == old(self)@.delete_effects(),
    {
        let mut out: Vec<Effect> = Vec::new();
        match self.picked_row() {
            Some((source, row)) => {
                self.drop_entries(source, &row.idxs);
                match source {
                    Source::History => ask(&mut out, Effect::SaveHistory),
                    Source::Favourites => if row.idxs.len() > 0 {
                        ask(&mut out, Effect::SaveFavourites);
                    },
                    Source::Playlist => {},
                }
                self.overlay_rebuild(true, disk);
            },
            None => {},
        }
        out
    }

    /// `f` inside an overlay: star the selected history row or playlist item
    /// (a playlist item through the font it plays through), or un-star the
    /// selected favourite (where it is the same gesture as `d`).
    #[verifier::rlimit(30)]
    pub fn overlay_toggle_favourite(&mut self, world: &World) -> (r: Vec<Effect>)
        requires
            old(self)@.wf(),
        ensures
            final(self)@.wf(),
            final(self)@ == old(self)@.row_starred(world@),
            app::effects(r@) == old(self)@.row_star_effects(),
    {
        let mut out: Vec<Effect> = Vec::new();
        let (source, row) = match self.picked_row() {
            Some(x) => x,
            None => {
                return out;
            },
        };
        if source == Source::Favourites {
            return self.overlay_delete(&world.disk);
        }
        let font = match row.soundfont {
            Some(sf) => Some(sf),
            None => if source == Source::Playlist {
                clone_loc(&self.user_font)
            } else {
                None
            },
        };
        match (row.midi, font) {
            (Some(m), Some(sf)) => {
                self.star(m, sf, world.unix, &mut out);
                self.overlay_rebuild(true, &world.disk);
            },
            // A SoundFont loaded with nothing playing is half a pair.
            _ => self.say("Not a pair — a favourite needs both a track and a SoundFont"),
        }
        out
    }

    fn moving(&self, down: bool) -> (r: Option<(usize, usize, usize)>)
        ensures
            match self@.moving(down) {
                Some((i, j)) => r matches Some(x) && x.0 == (self@.overlay->0).rows[i].idxs[0]
                    && x.1 == (self@.overlay->0).rows[j].idxs[0] && x.2 == j,
                None => r is None,
            },
    {
        match &self.overlay {
            Some(o) => {
                if o.source == Source::History {
                    return None;
                }
                let n: usize = o.rows.len();
                let i: usize = match o.state.selected() {
                    Some(i) => i,
                    None => 0,
                };
                if i >= n || (!down && i == 0) {
                    return None;
                }
                let j: usize = if down {
                    if i + 1 >= n {
                        return None;
                    }
                    i + 1
                } else {
                    i - 1
                };
                assert(self@.overlay->0 == o@);
                assert(o@.rows[i as int] == o.rows@[i as int]@);
                assert(o@.rows[j as int] == o.rows@[j as int]@);
                if o.rows[i].idxs.len() > 0 && o.rows[j].idxs.len() > 0 {
                    Some((o.rows[i].idxs[0], o.rows[j].idxs[0], j))
                } else {
                    None
                }
            },
            None => None,
        }
    }

    fn swap_entries(&mut self, a: usize, b: usize)
        requires
            old(self)@.wf(),
        ensures
            final(self)@.wf(),
            final(self)@ == old(self)@.entries_swapped(a, b),
    {
        match self.overlay_source() {
            Some(Source::Playlist) => self.playlist.swap(a, b),
            _ => self.favs.swap(a, b),
        }
    }

    fn overlay_put(&mut self, j: usize)
        ensures
            final(self)@ == old(self)@.overlay_on(j as int),
    {
        match &mut self.overlay {
            Some(o) => {
                let n: usize = o.rows.len();
                o.state = Cursor {
                    at: Some(
                        if j < n {
                            j
                        } else if n > 0 {
                            n - 1
                        } else {
                            0
                        },
                    ),
                };
            },
            None => {},
        }
    }

    /// Move the selected favourite or playlist item one place along its list,
    /// the cursor following it. Under a filter the row swaps with its visible
    /// neighbour, so the move is always the one on screen.
    pub fn overlay_move(&mut self, down: bool, disk: &Disk) -> (r: Vec<Effect>)
        requires
            old(self)@.wf(),
        ensures
            final(self)@.wf(),
            final(self)@ == old(self)@.row_moved(down, disk@),
            app::effects(r@) == old(self)@.move_effects(down),
    {
        let mut out: Vec<Effect> = Vec::new();
        match self.moving(down) {
            Some((a, b, j)) => {
                let favs = match self.overlay_source() {
                    Some(Source::Favourites) => true,
                    _ => false,
                };
                self.swap_entries(a, b);
                if favs {
                    ask(&mut out, Effect::SaveFavourites);
                }
                self.overlay_rebuild(true, disk);
                self.overlay_put(j);
            },
            None => {},
        }
        out
    }

    fn set_asking(&mut self, ask: bool)
        ensures
            final(self)@ == old(self)@.asking(ask),
    {
        match &mut self.overlay {
            Some(o) => {
                o.confirm_clear = ask;
            },
            None => {},
        }
    }

    /// Clear the whole history. The first press only asks; the second one does
    /// it, since there is no undo. The favourites have no such key: every one
    /// of them was starred by hand, so erasing the lot has no honest use.
    pub fn history_clear(&mut self, disk: &Disk) -> (r: Vec<Effect>)
        requires
            old(self)@.wf(),
        ensures
            final(self)@.wf(),
            final(self)@ == old(self)@.cleared(disk@),
            app::effects(r@) == old(self)@.clear_effects(),
    {
        let mut out: Vec<Effect> = Vec::new();
        let confirmed = match &self.overlay {
            Some(o) => if o.source == Source::History {
                o.confirm_clear
            } else {
                return out;
            },
            None => {
                return out;
            },
        };
        if !confirmed {
            self.set_asking(true);
            self.say("Press D again to erase the whole history");
            return out;
        }
        self.set_asking(false);
        self.history.clear();
        ask(&mut out, Effect::SaveHistory);
        self.overlay_rebuild(false, disk);
        self.say("History erased");
        out
    }

    /// Any other keypress takes back the pending "erase everything" question.
    pub fn overlay_cancel_confirm(&mut self)
        ensures
            final(self)@ == if old(self)@.overlay matches Some(o) && o.confirm_clear {
                AppView { message: None, ..old(self)@.asking(false) }
            } else {
                old(self)@
            },
    {
        let on = match &self.overlay {
            Some(o) => o.confirm_clear,
            None => false,
        };
        if on {
            self.set_asking(false);
            self.message = None;
        }
    }
}

} // verus!
