//! Application state and the decisions that tie the two browser panels to the
//! player.
//!
//! Each operation changes the state and returns the outside work it asks for,
//! as a list of [`Effect`]s to be carried out in order. Work that has an
//! outcome (loading a font, starting a track, reading or writing a playlist)
//! is answered by calling back with it before the next effect is carried out.

use crate::browser;
use crate::browser::{Browser, BrowserView};
use crate::cursor::Cursor;
use crate::favourites;
use crate::favourites::{Favourites, FavouritesView};
use crate::history;
use crate::history::{History, HistoryView, Row, RowView, View as LogView};
use crate::host;
use crate::host::{Host, HostView};
use crate::midi::MidiInfo;
use crate::paths;
use crate::paths::{file_name_of, same_path};
use crate::playlist;
use crate::playlist::{
    absolute, is_playlist_name, midi_ext_list, playlist_ext_list, sf2_ext_list, Playlist, PlaylistView,
};
use crate::state::{State, StateView};
use crate::raw;
use crate::raw::shown_text;
use crate::text;
use crate::text::{chars_of, string_of};
use crate::vfs;
use crate::vfs::{clone_loc, DirChild, Disk, FileKind, LocView, Location};
use vstd::prelude::*;
use vstd::string::*;

verus! {

// --- parts ------------------------------------------------------------------

#[derive(Clone, Copy, PartialEq, Eq, Structural, Debug)]
pub enum Panel {
    Midi,
    Sf2,
}

#[derive(Clone, Copy, PartialEq, Eq, Structural, Debug)]
pub enum PlayState {
    Stopped,
    Playing,
    Paused,
}

/// How long a (track, SoundFont) combination must actually play before it is
/// written to the history, in nanoseconds. Paging through a directory with
/// Enter fires a play per keystroke; without this the history would fill with
/// tracks nobody heard.
pub const MIN_LISTEN_NS: u64 = 5_000_000_000;

/// A clock that counts while it runs.
#[derive(Clone, Copy, Debug)]
pub struct Clock {
    /// When it was last started, while it runs.
    pub since_ns: Option<u64>,
    /// What it had counted by then.
    pub counted_ns: u64,
}

/// A clock that stands at zero.
pub open spec fn zero() -> Clock {
    Clock { since_ns: None, counted_ns: 0 }
}

impl Clock {
    /// What it has counted, in nanoseconds.
    pub open spec fn time(self, ns: u64) -> int {
        self.counted_ns + match self.since_ns {
            Some(t) => if ns >= t {
                ns - t
            } else {
                0
            },
            None => 0,
        }
    }

    /// What it has counted, as far as it counts.
    pub open spec fn reading(self, ns: u64) -> u64 {
        let e = self.time(ns);
        if e <= u64::MAX {
            e as u64
        } else {
            u64::MAX
        }
    }

    /// Running on from where it was held.
    pub open spec fn running(self, ns: u64) -> Clock {
        Clock { since_ns: Some(ns), counted_ns: self.counted_ns }
    }

    /// Held at what it has counted.
    pub open spec fn held(self, ns: u64) -> Clock {
        Clock { since_ns: None, counted_ns: self.reading(ns) }
    }

    /// Set to `t`, and running on from there if it runs.
    pub open spec fn set_to(self, t: u64, ns: u64) -> Clock {
        Clock {
            since_ns: if self.since_ns is Some {
                Some(ns)
            } else {
                None
            },
            counted_ns: t,
        }
    }

    fn live(&self, ns: u64) -> (r: u64)
        ensures
            self.counted_ns + r == self.time(ns),
    {
        match self.since_ns {
            Some(t) => if ns >= t {
                ns - t
            } else {
                0
            },
            None => 0,
        }
    }

    pub fn read(&self, ns: u64) -> (r: u64)
        ensures
            r == self.reading(ns),
    {
        self.counted_ns.saturating_add(self.live(ns))
    }

    /// True when it has counted at least `by` more than `from`.
    pub fn has_passed(&self, ns: u64, from: u64, by: u64) -> (r: bool)
        ensures
            r == (self.time(ns) - from >= by),
    {
        self.counted_ns as u128 + self.live(ns) as u128 >= from as u128 + by as u128
    }

    /// Start it at zero.
    pub fn start(&mut self, ns: u64)
        ensures
            *final(self) == zero().running(ns),
    {
        self.since_ns = Some(ns);
        self.counted_ns = 0;
    }

    pub fn resume(&mut self, ns: u64)
        ensures
            *final(self) == old(self).running(ns),
    {
        self.since_ns = Some(ns);
    }

    pub fn hold(&mut self, ns: u64)
        ensures
            *final(self) == old(self).held(ns),
    {
        self.counted_ns = self.read(ns);
        self.since_ns = None;
    }

    pub fn set(&mut self, t: u64, ns: u64)
        ensures
            *final(self) == old(self).set_to(t, ns),
    {
        self.counted_ns = t;
        if self.since_ns.is_some() {
            self.since_ns = Some(ns);
        }
    }

    /// Put it back to zero, not running.
    pub fn reset(&mut self)
        ensures
            *final(self) == zero(),
    {
        self.since_ns = None;
        self.counted_ns = 0;
    }
}

/// The combination currently being listened to, waiting to clear
/// [`MIN_LISTEN_NS`] before it is written to the history.
#[derive(Debug)]
pub struct Pending {
    pub midi: Option<Location>,
    pub soundfont: Option<Location>,
    /// Value of the listening clock when this combination started, so the dwell
    /// is measured in time actually heard (neither pauses nor seeks count)
    /// rather than wall time.
    pub at_ns: u64,
    /// False for a repeat-mode loop of the track already at the top of the
    /// history: it refreshes the timestamp without inflating the play count.
    pub count: bool,
}

/// A waiting combination, as texts.
#[verifier::ext_equal]
pub struct PendingView {
    pub midi: Option<LocView>,
    pub soundfont: Option<LocView>,
    pub at_ns: u64,
    pub count: bool,
}

impl View for Pending {
    type V = PendingView;

    open spec fn view(&self) -> PendingView {
        PendingView {
            midi: vfs::opt_view(self.midi),
            soundfont: vfs::opt_view(self.soundfont),
            at_ns: self.at_ns,
            count: self.count,
        }
    }
}

/// Which store the overlay is showing. All are lists of (track, SoundFont)
/// rows over the same layout and keys, so they share one overlay.
#[derive(Clone, Copy, PartialEq, Eq, Structural, Debug)]
pub enum Source {
    History,
    Favourites,
    Playlist,
}

/// Where the *next* track comes from when the current one finishes. Set by
/// whatever started playing: browsing plays on through the directory, a
/// history row through the history, a favourite through the favourites list, a
/// playlist item through the playlist.
///
/// The overlays are views beside the panels, and a list only plays on while
/// its view is showing: closing the overlay lets the current track finish and
/// stops there, and reopening it picks the queue up again.
#[derive(Debug)]
pub enum PlaySource {
    Directory,
    /// Playing the history. Playing reorders the log it is built from, so the
    /// queue is the rows as they were shown when `Enter` was pressed, with the
    /// view and filter that produced them; `idx` is the playing row.
    History { rows: Vec<Row>, view: LogView, filter: String, idx: usize },
    /// Playing the favourites list. The pair identifies the entry that is
    /// playing so the position survives a reorder; `idx` is where it sat, used
    /// as a fallback if that entry is un-starred while it plays.
    Favourites { midi: Location, soundfont: Location, idx: usize },
    /// Playing the open playlist. A playlist may hold the same pair twice, so
    /// the playing item is followed by its session identity rather than by
    /// its contents; `idx` is the fallback if it is removed while it plays.
    Playlist { id: u64, idx: usize },
}

/// Where the next track comes from, as texts.
#[verifier::ext_equal]
pub enum SourceView {
    Directory,
    History { rows: Seq<RowView>, view: LogView, filter: Seq<char>, idx: usize },
    Favourites { midi: LocView, soundfont: LocView, idx: usize },
    Playlist { id: u64, idx: usize },
}

impl View for PlaySource {
    type V = SourceView;

    open spec fn view(&self) -> SourceView {
        match self {
            PlaySource::Directory => SourceView::Directory,
            PlaySource::History { rows, view, filter, idx } => SourceView::History {
                rows: history::row_views(rows@),
                view: *view,
                filter: filter@,
                idx: *idx,
            },
            PlaySource::Favourites { midi, soundfont, idx } => SourceView::Favourites {
                midi: midi@,
                soundfont: soundfont@,
                idx: *idx,
            },
            PlaySource::Playlist { id, idx } => SourceView::Playlist { id: *id, idx: *idx },
        }
    }
}

/// What the bottom-line prompt is asking for.
#[derive(Clone, Copy, PartialEq, Eq, Structural, Debug)]
pub enum PromptKind {
    /// A directory for the active panel (the `i` key).
    Goto,
    /// A file to save the playlist to (`W`, or `w` on a new playlist).
    SavePlaylist,
}

/// The one-line path prompt, with filename completion.
#[derive(Debug)]
pub struct Prompt {
    pub kind: PromptKind,
    pub buf: String,
    /// Set when saving would overwrite a different, existing file; a second
    /// Enter on the same path goes ahead. Any edit takes it back.
    pub confirm: Option<String>,
}

/// The prompt, as texts.
#[verifier::ext_equal]
pub struct PromptView {
    pub kind: PromptKind,
    pub buf: Seq<char>,
    pub confirm: Option<Seq<char>>,
}

impl View for Prompt {
    type V = PromptView;

    open spec fn view(&self) -> PromptView {
        PromptView {
            kind: self.kind,
            buf: self.buf@,
            confirm: history::opt_text(self.confirm),
        }
    }
}

/// An action held back because it would drop unsaved playlist edits, waiting
/// for the same key again to confirm it.
#[derive(Debug)]
pub enum Discard {
    Quit,
    Open(String),
}

/// A held-back action, as texts.
#[verifier::ext_equal]
pub enum DiscardView {
    Quit,
    Open(Seq<char>),
}

impl View for Discard {
    type V = DiscardView;

    open spec fn view(&self) -> DiscardView {
        match self {
            Discard::Quit => DiscardView::Quit,
            Discard::Open(p) => DiscardView::Open(p@),
        }
    }
}

/// State of the history / favourites / playlist overlay while it is open.
#[derive(Debug)]
pub struct Overlay {
    pub source: Source,
    /// Which projection of the history is shown. Unused by the other lists.
    pub view: LogView,
    pub state: Cursor,
    /// The rows matching `filter`, as currently displayed.
    pub rows: Vec<Row>,
    pub filter: String,
    /// True while `/` is capturing keystrokes into `filter`.
    pub filtering: bool,
    /// Set by the first `D`; the second one actually clears the history.
    pub confirm_clear: bool,
}

/// The overlay, as texts.
#[verifier::ext_equal]
pub struct OverlayView {
    pub source: Source,
    pub view: LogView,
    pub at: Option<usize>,
    pub rows: Seq<RowView>,
    pub filter: Seq<char>,
    pub filtering: bool,
    pub confirm_clear: bool,
}

impl View for Overlay {
    type V = OverlayView;

    open spec fn view(&self) -> OverlayView {
        OverlayView {
            source: self.source,
            view: self.view,
            at: self.state.at,
            rows: history::row_views(self.rows@),
            filter: self.filter@,
            filtering: self.filtering,
            confirm_clear: self.confirm_clear,
        }
    }
}

impl OverlayView {
    /// The row under the cursor.
    pub open spec fn selected(self) -> Option<RowView> {
        match self.at {
            Some(i) => if i < self.rows.len() {
                Some(self.rows[i as int])
            } else {
                None
            },
            None => None,
        }
    }

    /// Over other rows, the cursor kept (clamped) or put on the first.
    pub open spec fn with_rows(self, rows: Seq<RowView>, keep: bool) -> OverlayView {
        let cur = match self.at {
            Some(i) => i as int,
            None => 0,
        };
        OverlayView {
            rows,
            at: if rows.len() == 0 {
                None
            } else if keep {
                Some(
                    (if cur < rows.len() {
                        cur
                    } else {
                        rows.len() - 1
                    }) as usize,
                )
            } else {
                Some(0)
            },
            ..self
        }
    }
}

impl Overlay {
    fn with_rows(self, rows: Vec<Row>, keep: bool) -> (r: Overlay)
        ensures
            r@ == self@.with_rows(history::row_views(rows@), keep),
    {
        let n: usize = rows.len();
        let cur: usize = match self.state.selected() {
            Some(i) => i,
            None => 0,
        };
        let at: Option<usize> = if n == 0 {
            None
        } else if keep {
            Some(if cur < n { cur } else { n - 1 })
        } else {
            Some(0)
        };
        Overlay {
            source: self.source,
            view: self.view,
            state: Cursor { at },
            rows,
            filter: self.filter,
            filtering: self.filtering,
            confirm_clear: self.confirm_clear,
        }
    }

    pub fn selected(&self) -> (r: Option<&Row>)
        ensures
            match self@.selected() {
                Some(x) => r matches Some(y) && y@ == x,
                None => r is None,
            },
    {
        match self.state.selected() {
            Some(i) => if i < self.rows.len() {
                assert(self@.rows[i as int] == self.rows@[i as int]@);
                Some(&self.rows[i])
            } else {
                None
            },
            None => None,
        }
    }

    pub fn move_down(&mut self, n: usize)
        ensures
            final(self)@ == (OverlayView {
                at: crate::cursor::down(old(self)@.at, n, old(self)@.rows.len() as int),
                ..old(self)@
            }),
    {
        let len: usize = self.rows.len();
        self.state.move_down(n, len);
    }

    pub fn move_up(&mut self, n: usize)
        ensures
            final(self)@ == (OverlayView {
                at: crate::cursor::up(old(self)@.at, n, old(self)@.rows.len() as int),
                ..old(self)@
            }),
    {
        let len: usize = self.rows.len();
        self.state.move_up(n, len);
    }

    pub fn home(&mut self)
        ensures
            final(self)@ == (OverlayView {
                at: crate::cursor::first(old(self)@.at, old(self)@.rows.len() as int),
                ..old(self)@
            }),
    {
        let len: usize = self.rows.len();
        self.state.home(len);
    }

    pub fn end(&mut self)
        ensures
            final(self)@ == (OverlayView {
                at: crate::cursor::last(old(self)@.at, old(self)@.rows.len() as int),
                ..old(self)@
            }),
    {
        let len: usize = self.rows.len();
        self.state.end(len);
    }
}

// --- outside ----------------------------------------------------------------

/// What is around the application when something happens: the clocks, what was
/// found on the disk, and the directories of the process.
pub struct World {
    /// A clock that never goes back, in nanoseconds.
    pub ns: u64,
    /// Unix seconds.
    pub unix: u64,
    pub disk: Disk,
    pub host: Host,
}

/// What is around the application, as texts and numbers.
#[verifier::ext_equal]
pub struct WorldView {
    pub ns: u64,
    pub unix: u64,
    pub disk: Map<Seq<char>, FileKind>,
    pub host: HostView,
}

impl View for World {
    type V = WorldView;

    open spec fn view(&self) -> WorldView {
        WorldView { ns: self.ns, unix: self.unix, disk: self.disk@, host: self.host@ }
    }
}

/// Outside work that an operation asks for.
#[derive(Debug)]
pub enum Effect {
    /// Point a panel at a location.
    Reveal { panel: Panel, loc: Location },
    /// Enter the directory at a panel's cursor.
    EnterDir(Panel),
    /// Take a panel one directory up.
    GoUp(Panel),
    /// List a panel's directory anew.
    Refresh(Panel),
    /// Take a panel to a directory.
    SetDir { panel: Panel, dir: String },
    /// Drop a panel's search filter.
    ClearFilter(Panel),
    /// Load a SoundFont into the synth, then call [`App::font_loaded`] or
    /// [`App::failed`].
    LoadFont { loc: Location, remember: bool, adopt: bool },
    /// Start a track, then call [`App::track_started`], [`App::no_font`] or
    /// [`App::failed`].
    Play { loc: Location, count: bool },
    PauseSynth,
    ResumeSynth,
    StopSynth,
    /// Seek by a number of ticks.
    SeekTicks(i32),
    /// Set the synth's gain to this volume, in percent.
    SetGain(u8),
    SaveHistory,
    SaveFavourites,
    /// Remember the session, as [`App::session`] gives it.
    SaveSession,
    /// Read a playlist file, then call [`App::playlist_read`].
    OpenPlaylist { path: String },
    /// Look for what the prompt's text may be completed to, then call
    /// [`App::prompt_complete`].
    CompletePrompt,
    /// Write the playlist, then call [`App::playlist_written`].
    WritePlaylist { path: String, body: String, from_prompt: bool },
}

/// Outside work, as texts.
#[verifier::ext_equal]
pub enum EffectView {
    Reveal { panel: Panel, loc: LocView },
    EnterDir(Panel),
    GoUp(Panel),
    Refresh(Panel),
    SetDir { panel: Panel, dir: Seq<char> },
    ClearFilter(Panel),
    LoadFont { loc: LocView, remember: bool, adopt: bool },
    Play { loc: LocView, count: bool },
    PauseSynth,
    ResumeSynth,
    StopSynth,
    SeekTicks(i32),
    SetGain(u8),
    SaveHistory,
    SaveFavourites,
    SaveSession,
    OpenPlaylist { path: Seq<char> },
    CompletePrompt,
    WritePlaylist { path: Seq<char>, body: Seq<char>, from_prompt: bool },
}

impl View for Effect {
    type V = EffectView;

    open spec fn view(&self) -> EffectView {
        match self {
            Effect::Reveal { panel, loc } => EffectView::Reveal { panel: *panel, loc: loc@ },
            Effect::EnterDir(p) => EffectView::EnterDir(*p),
            Effect::GoUp(p) => EffectView::GoUp(*p),
            Effect::Refresh(p) => EffectView::Refresh(*p),
            Effect::SetDir { panel, dir } => EffectView::SetDir { panel: *panel, dir: dir@ },
            Effect::ClearFilter(p) => EffectView::ClearFilter(*p),
            Effect::LoadFont { loc, remember, adopt } => EffectView::LoadFont {
                loc: loc@,
                remember: *remember,
                adopt: *adopt,
            },
            Effect::Play { loc, count } => EffectView::Play { loc: loc@, count: *count },
            Effect::PauseSynth => EffectView::PauseSynth,
            Effect::ResumeSynth => EffectView::ResumeSynth,
            Effect::StopSynth => EffectView::StopSynth,
            Effect::SeekTicks(t) => EffectView::SeekTicks(*t),
            Effect::SetGain(v) => EffectView::SetGain(*v),
            Effect::SaveHistory => EffectView::SaveHistory,
            Effect::SaveFavourites => EffectView::SaveFavourites,
            Effect::SaveSession => EffectView::SaveSession,
            Effect::OpenPlaylist { path } => EffectView::OpenPlaylist { path: path@ },
            Effect::CompletePrompt => EffectView::CompletePrompt,
            Effect::WritePlaylist { path, body, from_prompt } => EffectView::WritePlaylist {
                path: path@,
                body: body@,
                from_prompt: *from_prompt,
            },
        }
    }
}

/// The effects in a list.
pub open spec fn effects(v: Seq<Effect>) -> Seq<EffectView> {
    v.map_values(|e: Effect| e@)
}

/// Ask for one more thing.
pub(crate) fn ask(out: &mut Vec<Effect>, e: Effect)
    ensures
        effects(final(out)@) == effects(old(out)@).push(e@),
{
    let ghost before = effects(out@);
    out.push(e);
    assert(effects(out@) =~= before.push(e@));
}

// --- the application --------------------------------------------------------

pub struct App {
    pub midi: Browser,
    pub sf2: Browser,
    pub active: Panel,
    pub state: PlayState,
    pub now_playing: Option<Location>,
    pub soundfont: Option<Location>,
    /// The most recently played file, remembered across sessions so the cursor
    /// can return to it on launch. Unlike `now_playing` it is seeded from the
    /// saved session at startup (before anything is actually played).
    pub last_played: Option<Location>,
    /// Parsed metadata (division, time signature, length) of the current track.
    pub cur_info: Option<MidiInfo>,
    /// What has been played, and through which SoundFont. Starts in-memory
    /// only, and stays so with `--no-history`.
    pub history: History,
    /// The starred (track, SoundFont) pairs, which double as a playlist.
    /// Starts in-memory only. `--no-history` does not affect it: a star is a
    /// deliberate act, not a recording.
    pub favs: Favourites,
    /// The open playlist file — or a new, unsaved one. Saved only on request.
    pub playlist: Playlist,
    /// The SoundFont a playlist item without one of its own plays through: the
    /// font last chosen, by hand or by replaying a history entry or favourite,
    /// or restored from the session. Fonts that playlist and favourites items
    /// load for themselves do not change it, so after an item pinned to one
    /// font, the next unpinned item goes back to the user's choice.
    pub user_font: Option<Location>,
    /// A quit or playlist switch waiting for confirmation because the playlist
    /// has unsaved changes.
    pub discard_armed: Option<Discard>,
    /// Whether the session is remembered. Off by default, like the in-memory
    /// history and favourites.
    pub persist_session: bool,
    /// The combination being listened to right now, not yet committed.
    pub pending: Option<Pending>,
    /// Open history / favourites / playlist overlay, if any.
    pub overlay: Option<Overlay>,
    /// Where the next track comes from when this one ends.
    pub play_source: PlaySource,
    /// Set when playback stopped at the end of a track only because the
    /// queue's overlay was closed, so reopening it can put the cursor on what
    /// would have played next. Cleared whenever a track starts.
    pub queue_held: bool,
    /// In percent, 0..=100.
    pub volume: u8,
    /// Repeat mode: loop the current track (next off) or the list (next on).
    pub repeat: bool,
    /// Next mode: advance to the next track when one finishes.
    pub next_mode: bool,
    pub message: Option<String>,
    /// Active incremental-search query for the focused panel, if in search mode.
    pub search: Option<String>,
    /// The open path prompt (go to directory, save playlist), if any.
    pub prompt: Option<Prompt>,
    pub show_help: bool,
    pub quit: bool,
    /// How long the current track has actually been heard.
    pub heard: Clock,
    /// The playback position that the readout shows: it runs with `heard`, and
    /// seeking moves it.
    pub shown: Clock,
}

/// The application, as texts and numbers.
pub struct AppView {
    pub midi: BrowserView,
    pub sf2: BrowserView,
    pub active: Panel,
    pub state: PlayState,
    pub now_playing: Option<LocView>,
    pub soundfont: Option<LocView>,
    pub last_played: Option<LocView>,
    pub cur_info: Option<MidiInfo>,
    pub history: HistoryView,
    pub favs: FavouritesView,
    pub playlist: PlaylistView,
    pub user_font: Option<LocView>,
    pub discard_armed: Option<DiscardView>,
    pub persist_session: bool,
    pub pending: Option<PendingView>,
    pub overlay: Option<OverlayView>,
    pub play_source: SourceView,
    pub queue_held: bool,
    pub volume: u8,
    pub repeat: bool,
    pub next_mode: bool,
    pub message: Option<Seq<char>>,
    pub search: Option<Seq<char>>,
    pub prompt: Option<PromptView>,
    pub show_help: bool,
    pub quit: bool,
    pub heard: Clock,
    pub shown: Clock,
}

impl View for App {
    type V = AppView;

    open spec fn view(&self) -> AppView {
        AppView {
            midi: self.midi@,
            sf2: self.sf2@,
            active: self.active,
            state: self.state,
            now_playing: vfs::opt_view(self.now_playing),
            soundfont: vfs::opt_view(self.soundfont),
            last_played: vfs::opt_view(self.last_played),
            cur_info: self.cur_info,
            history: self.history@,
            favs: self.favs@,
            playlist: self.playlist@,
            user_font: vfs::opt_view(self.user_font),
            discard_armed: match self.discard_armed {
                Some(d) => Some(d@),
                None => None,
            },
            persist_session: self.persist_session,
            pending: match self.pending {
                Some(p) => Some(p@),
                None => None,
            },
            overlay: match self.overlay {
                Some(o) => Some(o@),
                None => None,
            },
            play_source: self.play_source@,
            queue_held: self.queue_held,
            volume: self.volume,
            repeat: self.repeat,
            next_mode: self.next_mode,
            message: history::opt_text(self.message),
            search: history::opt_text(self.search),
            prompt: match self.prompt {
                Some(p) => Some(p@),
                None => None,
            },
            show_help: self.show_help,
            quit: self.quit,
            heard: self.heard,
            shown: self.shown,
        }
    }
}

impl AppView {
    /// The log is newest first, and every playlist item has its own identity.
    pub open spec fn wf(self) -> bool {
        &&& history::is_newest_first(self.history.entries)
        &&& self.playlist.wf()
    }

    /// The panel that has the focus.
    pub open spec fn active_panel(self) -> BrowserView {
        match self.active {
            Panel::Midi => self.midi,
            Panel::Sf2 => self.sf2,
        }
    }

    /// With the panel that has the focus changed.
    pub open spec fn with_active(self, b: BrowserView) -> AppView {
        match self.active {
            Panel::Midi => AppView { midi: b, ..self },
            Panel::Sf2 => AppView { sf2: b, ..self },
        }
    }

    /// With a message in the status line.
    pub open spec fn saying(self, m: Seq<char>) -> AppView {
        AppView { message: Some(m), ..self }
    }

    /// The playback position that the readout shows, in nanoseconds. Pauses do
    /// not count, and seeking moves it.
    pub open spec fn counted(self, ns: u64) -> u64 {
        self.shown.reading(ns)
    }

    /// The store the open overlay is showing, if any.
    pub open spec fn overlay_source(self) -> Option<Source> {
        match self.overlay {
            Some(o) => Some(o.source),
            None => None,
        }
    }

    /// The rows of a store.
    pub open spec fn rows_of(
        self,
        source: Source,
        view: LogView,
        filter: Seq<char>,
        disk: Map<Seq<char>, FileKind>,
    ) -> Seq<RowView> {
        history::filtered(
            match source {
                Source::History => history::all_rows(self.history.entries, view, disk),
                Source::Favourites => favourites::fav_rows(
                    self.favs.entries,
                    self.history.entries,
                    disk,
                ),
                Source::Playlist => playlist::item_rows(
                    self.playlist.items,
                    self.history.entries,
                    self.user_font,
                    disk,
                ),
            },
            filter,
        )
    }

    /// With the overlay's rows made anew, the cursor kept (clamped) or put on
    /// the first row.
    pub open spec fn rebuilt(self, keep: bool, disk: Map<Seq<char>, FileKind>) -> AppView {
        match self.overlay {
            Some(o) => AppView {
                overlay: Some(
                    o.with_rows(self.rows_of(o.source, o.view, o.filter, disk), keep),
                ),
                ..self
            },
            None => self,
        }
    }

    /// True when the combination being listened to has been heard long enough.
    pub open spec fn due(self, ns: u64) -> bool {
        self.pending matches Some(p) && self.heard.time(ns) - p.at_ns >= MIN_LISTEN_NS
    }

    /// With the combination being listened to written to the history, once it
    /// has been heard long enough. The favourites' and the playlist's overlay
    /// shows the new play count; the history's rows stay as they are.
    #[verifier::opaque]
    pub open spec fn committed(self, w: WorldView) -> AppView {
        if self.due(w.ns) {
            let p = self.pending->0;
            let a = AppView {
                pending: None,
                history: if p.midi is None && p.soundfont is None {
                    self.history
                } else {
                    HistoryView {
                        entries: history::recorded(
                            self.history.entries,
                            p.midi,
                            p.soundfont,
                            w.unix,
                            p.count,
                        ),
                        dirty: true,
                        ..self.history
                    }
                },
                ..self
            };
            if a.overlay_source() == Some(Source::Favourites) || a.overlay_source() == Some(
                Source::Playlist,
            ) {
                a.rebuilt(true, w.disk)
            } else {
                a
            }
        } else {
            self
        }
    }

    pub open spec fn commit_effects(self, ns: u64) -> Seq<EffectView> {
        if self.due(ns) {
            seq![EffectView::SaveHistory]
        } else {
            seq![]
        }
    }

    /// What is remembered of the session.
    pub open spec fn session(self) -> StateView {
        StateView {
            midi_dir: Some(self.midi.dir),
            midi_file: self.last_played,
            sf2_dir: Some(self.sf2.dir),
            soundfont: self.soundfont,
            playlist: self.playlist.path,
        }
    }

    /// Remembering the session, when that is on.
    pub open spec fn save_effects(self) -> Seq<EffectView> {
        if self.persist_session {
            seq![EffectView::SaveSession]
        } else {
            seq![]
        }
    }
}

/// The first thing an application knows.
pub open spec fn fresh(midi: BrowserView, sf2: BrowserView, warning: Option<Seq<char>>) -> AppView {
    AppView {
        midi,
        sf2,
        active: Panel::Midi,
        state: PlayState::Stopped,
        now_playing: None,
        soundfont: None,
        last_played: None,
        cur_info: None,
        history: HistoryView { entries: seq![], path: None, dirty: false },
        favs: FavouritesView { entries: seq![], path: None, dirty: false },
        playlist: playlist::empty_list(),
        user_font: None,
        discard_armed: None,
        persist_session: false,
        pending: None,
        overlay: None,
        play_source: SourceView::Directory,
        queue_held: false,
        volume: 60,
        repeat: false,
        next_mode: true,
        message: warning,
        search: None,
        prompt: None,
        show_help: false,
        quit: false,
        heard: zero(),
        shown: zero(),
    }
}

/// A panel that lists nothing yet.
pub open spec fn bare_panel(
    dir: LocView,
    exts: Seq<Seq<char>>,
    compute_duration: bool,
    allow_archives: bool,
) -> BrowserView {
    BrowserView {
        dir,
        all: seq![],
        entries: seq![],
        filter: seq![],
        at: None,
        exts: browser::lowered(exts),
        also: seq![],
        show_hidden: false,
        compute_duration,
        allow_archives,
    }
}

/// The MIDI panel at launch. Only this panel browses into archives, and it
/// lists playlists beside the MIDI files.
pub open spec fn midi_panel(dir: LocView, children: Seq<vfs::ChildView>) -> BrowserView {
    (BrowserView {
        also: browser::lowered(playlist::playlist_exts()),
        ..bare_panel(dir, playlist::midi_exts(), true, true).refreshed(children)
    }).refreshed(children)
}

/// The SoundFont panel at launch.
pub open spec fn sf2_panel(dir: LocView, children: Seq<vfs::ChildView>) -> BrowserView {
    bare_panel(dir, playlist::sf2_exts(), false, false).refreshed(children)
}

// --- what the panels and the player do --------------------------------------

/// "ON" or "OFF".
pub open spec fn on_off_text(b: bool) -> Seq<char> {
    if b {
        "ON"@
    } else {
        "OFF"@
    }
}

/// `n` kept within `lo` and `hi`.
pub open spec fn within(n: int, lo: int, hi: int) -> int {
    if n < lo {
        lo
    } else if n > hi {
        hi
    } else {
        n
    }
}

/// `a / b`, towards zero.
pub open spec fn quotient(a: int, b: int) -> int {
    if a >= 0 {
        a / b
    } else {
        -((-a) / b)
    }
}

/// By how many ticks to seek for `secs` seconds, at the tick `cur` of `total`
/// after `elapsed` nanoseconds of playback: at the rate so far, once more than
/// half a second was played, and by 2% of the song for each second before.
pub open spec fn seek_delta(secs: i32, elapsed: int, position: Option<(i32, i32)>) -> i32 {
    match position {
        Some((cur, total)) => within(
            if elapsed > 500_000_000 && cur > 0 {
                quotient(secs * cur * 1_000_000_000, elapsed)
            } else {
                quotient(secs * total, 50)
            },
            i32::MIN as int,
            i32::MAX as int,
        ) as i32,
        None => 0,
    }
}

impl AppView {
    /// What showing the current track and font asks for.
    pub open spec fn goto_effects(self) -> Seq<EffectView> {
        reveals(self.now_playing, self.soundfont)
    }

    pub open spec fn gone_to_current(self) -> AppView {
        AppView {
            message: if self.now_playing is None && self.soundfont is None {
                Some("Nothing playing or loaded"@)
            } else {
                None
            },
            ..self
        }
    }

    /// With the active panel's filter set.
    pub open spec fn filtered_by(self, q: Seq<char>) -> AppView {
        self.with_active(
            (BrowserView { filter: text::lower(q), ..self.active_panel() }).refiltered(),
        )
    }

    /// With the search buffer changed, and the active panel's filter with it.
    pub open spec fn searching(self, search: Option<Seq<char>>) -> AppView {
        (AppView { search, ..self }).filtered_by(
            match search {
                Some(q) => q,
                None => seq![],
            },
        )
    }

    /// With a newly loaded font put to be remembered, or not.
    pub open spec fn font_remembered(self, loc: LocView, remember: bool, w: WorldView) -> AppView {
        if !remember {
            AppView { pending: None, ..self }
        } else if self.state != PlayState::Stopped && self.now_playing is Some {
            AppView {
                pending: Some(
                    PendingView {
                        midi: self.now_playing,
                        soundfont: Some(loc),
                        at_ns: self.heard.reading(w.ns),
                        count: true,
                    },
                ),
                ..self
            }
        } else {
            AppView {
                history: HistoryView {
                    entries: history::recorded(
                        self.history.entries,
                        None,
                        Some(loc),
                        w.unix,
                        true,
                    ),
                    dirty: true,
                    ..self.history
                },
                ..self
            }
        }
    }

    pub open spec fn remember_effects(self, remember: bool) -> Seq<EffectView> {
        if remember && (self.state == PlayState::Stopped || self.now_playing is None) {
            seq![EffectView::SaveHistory]
        } else {
            seq![]
        }
    }

    /// With a SoundFont loaded: the one at `loc`, to be remembered in the
    /// history or not, and as the user's own or not.
    pub open spec fn with_font(
        self,
        loc: LocView,
        remember: bool,
        adopt: bool,
        w: WorldView,
    ) -> AppView {
        let a = self.committed(w).font_remembered(loc, remember, w);
        AppView {
            soundfont: Some(loc),
            message: Some("SoundFont loaded: "@ + loc.file_name()),
            user_font: if adopt {
                Some(loc)
            } else {
                a.user_font
            },
            ..a
        }
    }

    pub open spec fn font_effects(self, remember: bool, w: WorldView) -> Seq<EffectView> {
        self.commit_effects(w.ns) + self.remember_effects(remember) + self.save_effects()
    }

    /// With a track started.
    pub open spec fn with_track(
        self,
        loc: LocView,
        count: bool,
        info: Option<MidiInfo>,
        w: WorldView,
    ) -> AppView {
        let c = self.committed(w);
        AppView {
            message: None,
            cur_info: info,
            now_playing: Some(loc),
            last_played: Some(loc),
            queue_held: false,
            state: PlayState::Playing,
            heard: zero().running(w.ns),
            shown: zero().running(w.ns),
            pending: Some(
                PendingView { midi: Some(loc), soundfont: c.soundfont, at_ns: 0, count },
            ),
            ..c
        }
    }

    /// Paused when playing, playing when paused.
    pub open spec fn pause_toggled(self, ns: u64) -> AppView {
        match self.state {
            PlayState::Playing => AppView {
                heard: self.heard.held(ns),
                shown: self.shown.held(ns),
                state: PlayState::Paused,
                ..self
            },
            PlayState::Paused => AppView {
                heard: self.heard.running(ns),
                shown: self.shown.running(ns),
                state: PlayState::Playing,
                ..self
            },
            PlayState::Stopped => self,
        }
    }

    pub open spec fn pause_effects(self) -> Seq<EffectView> {
        match self.state {
            PlayState::Playing => seq![EffectView::PauseSynth],
            PlayState::Paused => seq![EffectView::ResumeSynth],
            PlayState::Stopped => seq![],
        }
    }

    pub open spec fn stopped(self, w: WorldView) -> AppView {
        if self.state == PlayState::Stopped {
            self
        } else {
            AppView {
                pending: None,
                state: PlayState::Stopped,
                heard: zero(),
                shown: zero(),
                ..self.committed(w)
            }
        }
    }

    pub open spec fn stop_effects(self, ns: u64) -> Seq<EffectView> {
        if self.state == PlayState::Stopped {
            seq![]
        } else {
            self.commit_effects(ns).push(EffectView::StopSynth)
        }
    }

    /// With the readout moved by `secs` seconds, not below zero. What was heard
    /// stays what it was.
    pub open spec fn sought(self, secs: i32, ns: u64) -> AppView {
        if self.state == PlayState::Stopped {
            self
        } else {
            AppView {
                shown: self.shown.set_to(
                    within(self.counted(ns) + secs * 1_000_000_000, 0, u64::MAX as int) as u64,
                    ns,
                ),
                ..self
            }
        }
    }
}

/// Pointing the panels at a track and a font, as far as they are given.
pub open spec fn reveals(midi: Option<LocView>, sf2: Option<LocView>) -> Seq<EffectView> {
    (match midi {
        Some(loc) => seq![EffectView::Reveal { panel: Panel::Midi, loc }],
        None => seq![],
    }) + (match sf2 {
        Some(loc) => seq![EffectView::Reveal { panel: Panel::Sf2, loc }],
        None => seq![],
    })
}

pub fn on_off(b: bool) -> (r: &'static str)
    ensures
        r@ == on_off_text(b),
{
    if b {
        "ON"
    } else {
        "OFF"
    }
}

impl App {
    pub fn new(
        midi_dir: Location,
        sf2_dir: Location,
        midi_children: &Vec<DirChild>,
        sf2_children: &Vec<DirChild>,
        warning: Option<String>,
    ) -> (r: App)
        ensures
            r@ == fresh(
                midi_panel(midi_dir@, vfs::child_views(midi_children@)),
                sf2_panel(sf2_dir@, vfs::child_views(sf2_children@)),
                history::opt_text(warning),
            ),
            r@.wf(),
    {
        let midi = Browser::new_at(midi_dir, &midi_ext_list(), true, true, midi_children);
        let midi = midi.also_listing(&playlist_ext_list(), midi_children);
        let sf2 = Browser::new_at(sf2_dir, &sf2_ext_list(), false, false, sf2_children);
        App {
            midi,
            sf2,
            active: Panel::Midi,
            state: PlayState::Stopped,
            now_playing: None,
            soundfont: None,
            last_played: None,
            cur_info: None,
            history: History::default(),
            favs: Favourites::default(),
            playlist: Playlist::default(),
            user_font: None,
            discard_armed: None,
            persist_session: false,
            pending: None,
            overlay: None,
            play_source: PlaySource::Directory,
            queue_held: false,
            volume: 60,
            repeat: false,
            next_mode: true,
            message: warning,
            search: None,
            prompt: None,
            show_help: false,
            quit: false,
            heard: Clock { since_ns: None, counted_ns: 0 },
            shown: Clock { since_ns: None, counted_ns: 0 },
        }
    }

    pub fn active_browser(&mut self) -> (r: &mut Browser)
        ensures
            r@ == old(self)@.active_panel(),
            final(self)@ == old(self)@.with_active(final(r)@),
    {
        match self.active {
            Panel::Midi => &mut self.midi,
            Panel::Sf2 => &mut self.sf2,
        }
    }

    /// The panel that has the focus, to read.
    pub fn focused(&self) -> (r: &Browser)
        ensures
            r@ == self@.active_panel(),
    {
        match self.active {
            Panel::Midi => &self.midi,
            Panel::Sf2 => &self.sf2,
        }
    }

    pub fn toggle_panel(&mut self)
        ensures
            old(self)@.wf() ==> final(self)@.wf(),
            final(self)@ == (AppView {
                active: if old(self)@.active == Panel::Midi {
                    Panel::Sf2
                } else {
                    Panel::Midi
                },
                ..old(self)@
            }),
    {
        self.active = match self.active {
            Panel::Midi => Panel::Sf2,
            Panel::Sf2 => Panel::Midi,
        };
    }

    pub(crate) fn say(&mut self, m: &str)
        ensures
            final(self)@ == old(self)@.saying(m@),
    {
        self.message = Some(m.to_owned());
    }

    /// Jump both panels' cursors to what they are currently playing/loading:
    /// the playing MIDI file in the MIDI panel and the loaded SoundFont in the
    /// SoundFont panel. Each panel navigates into the right directory or archive
    /// first. Panels with nothing to reveal are left untouched.
    pub fn goto_current(&mut self) -> (r: Vec<Effect>)
        ensures
            old(self)@.wf() ==> final(self)@.wf(),
            final(self)@ == old(self)@.gone_to_current(),
            effects(r@) == old(self)@.goto_effects(),
    {
        let mut out: Vec<Effect> = Vec::new();
        ask_reveals(&mut out, &self.now_playing, &self.soundfont);
        if self.now_playing.is_none() && self.soundfont.is_none() {
            self.say("Nothing playing or loaded");
        } else {
            self.message = None;
        }
        out
    }
}

/// Ask for the panels to follow a track and a font, as far as they are given.
pub(crate) fn ask_reveals(
    out: &mut Vec<Effect>,
    midi: &Option<Location>,
    sf2: &Option<Location>,
)
    ensures
        effects(final(out)@) == effects(old(out)@) + reveals(
            vfs::opt_view(*midi),
            vfs::opt_view(*sf2),
        ),
{
    let ghost before = effects(out@);
    match midi {
        Some(l) => ask(out, Effect::Reveal { panel: Panel::Midi, loc: l.clone() }),
        None => {},
    }
    match sf2 {
        Some(l) => ask(out, Effect::Reveal { panel: Panel::Sf2, loc: l.clone() }),
        None => {},
    }
    assert(effects(out@) =~= before + reveals(vfs::opt_view(*midi), vfs::opt_view(*sf2)));
}

// --- keeping the history ----------------------------------------------------

/// Committing to the history changes nothing but the waiting combination, the
/// history itself and the rows that an open overlay shows.
pub proof fn lemma_commit_frame(a: AppView, w: WorldView)
    ensures
        a.committed(w) == (AppView {
            pending: a.committed(w).pending,
            history: a.committed(w).history,
            overlay: a.committed(w).overlay,
            ..a
        }),
        a.committed(w).overlay_source() == a.overlay_source(),
        a.committed(w).history.path == a.history.path,
{
    reveal(AppView::committed);
}

impl App {
    pub(crate) fn overlay_rows(
        &self,
        source: Source,
        view: LogView,
        filter: &str,
        disk: &Disk,
    ) -> (r: Vec<Row>)
        ensures
            history::row_views(r@) == self@.rows_of(source, view, filter@, disk@),
    {
        match source {
            Source::History => self.history.rows(view, filter, disk),
            Source::Favourites => self.favs.rows(filter, &self.history, disk),
            Source::Playlist => self.playlist.rows(filter, &self.history, &self.user_font, disk),
        }
    }

    /// The store the open overlay is showing, if any.
    pub fn overlay_source(&self) -> (r: Option<Source>)
        ensures
            r == self@.overlay_source(),
    {
        match &self.overlay {
            Some(o) => Some(o.source),
            None => None,
        }
    }

    /// Rebuild the visible rows after a view, filter or content change. The
    /// cursor is kept (clamped) when the rows still describe the same list.
    pub(crate) fn overlay_rebuild(&mut self, keep_cursor: bool, disk: &Disk)
        ensures
            final(self)@ == old(self)@.rebuilt(keep_cursor, disk@),
    {
        match self.overlay.take() {
            Some(o) => {
                let rows = self.overlay_rows(o.source, o.view, o.filter.as_str(), disk);
                self.overlay = Some(o.with_rows(rows, keep_cursor));
            },
            None => {},
        }
    }

    /// The playback position that the readout shows.
    pub fn elapsed_ns(&self, ns: u64) -> (r: u64)
        ensures
            r == self@.counted(ns),
    {
        self.shown.read(ns)
    }

    fn is_due(&self, ns: u64) -> (r: bool)
        ensures
            r == self@.due(ns),
    {
        match &self.pending {
            Some(p) => self.heard.has_passed(ns, p.at_ns, MIN_LISTEN_NS),
            None => false,
        }
    }

    /// Write the pending combination to the history once it has actually been
    /// heard for [`MIN_LISTEN_NS`] of playback. Called at every transition and
    /// on each UI tick; a combination that never reached the threshold is simply
    /// dropped when the next one starts.
    pub fn commit_history(&mut self, world: &World) -> (r: Vec<Effect>)
        requires
            old(self)@.wf(),
        ensures
            final(self)@.wf(),
            final(self)@ == old(self)@.committed(world@),
            effects(r@) == old(self)@.commit_effects(world@.ns),
    {
        let mut out: Vec<Effect> = Vec::new();
        self.commit_into(world, &mut out);
        out
    }

    #[verifier::rlimit(30)]
    pub(crate) fn commit_into(&mut self, world: &World, out: &mut Vec<Effect>)
        requires
            old(self)@.wf(),
        ensures
            final(self)@.wf(),
            final(self)@ == old(self)@.committed(world@),
            effects(final(out)@) == effects(old(out)@) + old(self)@.commit_effects(world@.ns),
    {
        reveal(AppView::committed);
        if !self.is_due(world.ns) {
            return;
        }
        match self.pending.take() {
            Some(p) => {
                self.history.record(p.midi, p.soundfont, world.unix, p.count);
                ask(out, Effect::SaveHistory);
                let rebuild = match self.overlay_source() {
                    Some(Source::Favourites) => true,
                    Some(Source::Playlist) => true,
                    _ => false,
                };
                if rebuild {
                    self.overlay_rebuild(true, &world.disk);
                }
            },
            None => {},
        }
    }

    /// What is remembered of this session for the next launch: the current
    /// directories, the last-played MIDI file, the loaded SoundFont and the
    /// open playlist. Directories and the played file keep their full location,
    /// so an archive (or a file inside one) is restored as such.
    pub fn session(&self) -> (r: State)
        ensures
            r@ == self@.session(),
    {
        State {
            midi_dir: Some(self.midi.location()),
            midi_file: clone_loc(&self.last_played),
            sf2_dir: Some(self.sf2.location()),
            soundfont: clone_loc(&self.soundfont),
            playlist: match self.playlist.path() {
                Some(p) => Some(p.clone()),
                None => None,
            },
        }
    }

    /// Ask for the session to be remembered, when that is on.
    pub fn save_state(&self) -> (r: Vec<Effect>)
        ensures
            effects(r@) == self@.save_effects(),
    {
        let mut out: Vec<Effect> = Vec::new();
        self.save_into(&mut out);
        out
    }

    pub(crate) fn save_into(&self, out: &mut Vec<Effect>)
        ensures
            effects(final(out)@) == effects(old(out)@) + self@.save_effects(),
    {
        if self.persist_session {
            ask(out, Effect::SaveSession);
        }
    }

    /// Commit whatever is still pending and flush both stores — called on exit.
    /// The favourites save on every change, so this only catches a write that
    /// failed earlier. The playlist is not saved here: saving it is explicit,
    /// and quitting with unsaved edits has already been confirmed.
    pub fn finish(&mut self, world: &World) -> (r: Vec<Effect>)
        requires
            old(self)@.wf(),
        ensures
            final(self)@.wf(),
            final(self)@ == old(self)@.committed(world@),
            effects(r@) == old(self)@.commit_effects(world@.ns).push(EffectView::SaveHistory).push(
                EffectView::SaveFavourites,
            ),
    {
        let mut out: Vec<Effect> = Vec::new();
        self.commit_into(world, &mut out);
        ask(&mut out, Effect::SaveHistory);
        ask(&mut out, Effect::SaveFavourites);
        out
    }
}

// --- acting on the panels ---------------------------------------------------

/// `s` without its last character.
pub open spec fn shortened(s: Seq<char>) -> Seq<char> {
    if s.len() > 0 {
        s.drop_last()
    } else {
        s
    }
}

pub(crate) fn shorten(s: &str) -> (r: String)
    ensures
        r@ == shortened(s@),
{
    let cs = chars_of(s);
    let n: usize = cs.len();
    if n > 0 {
        let r = string_of(&cs, 0, n - 1);
        assert(r@ =~= s@.drop_last());
        r
    } else {
        String::new()
    }
}

/// The name of a path; empty when it has none.
pub open spec fn name_of(p: Seq<char>) -> Seq<char> {
    match paths::file_name(p) {
        Some(n) => raw::shown(n),
        None => seq![],
    }
}

impl AppView {
    /// True when opening `p` was held back just before.
    pub open spec fn armed_to_open(self, p: Seq<char>) -> bool {
        self.discard_armed matches Some(DiscardView::Open(q)) && paths::key(q) == paths::key(p)
    }

    /// True when opening `p` is held back: it would drop unsaved edits, and
    /// this was not said yet.
    pub open spec fn holds_back(self, p: Seq<char>) -> bool {
        self.playlist.dirty && !self.armed_to_open(p)
    }

    /// With the playlist at `p` about to be opened, or a question in its place.
    pub open spec fn opening(self, p: Seq<char>) -> AppView {
        if self.holds_back(p) {
            AppView {
                discard_armed: Some(DiscardView::Open(p)),
                message: Some(
                    "The playlist has unsaved changes — Enter again to discard them and open "@
                        + name_of(p),
                ),
                ..self
            }
        } else {
            AppView { discard_armed: None, ..self }
        }
    }

    pub open spec fn opening_effects(self, p: Seq<char>) -> Seq<EffectView> {
        if self.holds_back(p) {
            seq![]
        } else {
            seq![EffectView::OpenPlaylist { path: p }]
        }
    }

    /// The playlist file at the cursor of the active panel, if that is what is
    /// there.
    pub open spec fn playlist_at_cursor(self, e: browser::EntryView) -> bool {
        self.active == Panel::Midi && playlist::has_ext(
            e.loc.file_name(),
            playlist::playlist_exts(),
        )
    }

    /// Once the row at the cursor was acted on.
    pub open spec fn activated(self, host: HostView) -> AppView {
        match self.active_panel().selected() {
            Some(e) => if e.is_dir {
                self
            } else if self.playlist_at_cursor(e) {
                match e.loc {
                    LocView::Fs(p) => self.opening(host::absolute_text(p, host.cwd)),
                    LocView::Zip { .. } => self,
                }
            } else {
                match self.active {
                    Panel::Sf2 => AppView { discard_armed: None, ..self },
                    Panel::Midi => AppView {
                        discard_armed: None,
                        play_source: SourceView::Directory,
                        ..self
                    },
                }
            },
            None => self,
        }
    }

    pub open spec fn activate_effects(self, host: HostView) -> Seq<EffectView> {
        match self.active_panel().selected() {
            Some(e) => if e.is_dir {
                seq![EffectView::EnterDir(self.active)]
            } else if self.playlist_at_cursor(e) {
                match e.loc {
                    LocView::Fs(p) => self.opening_effects(host::absolute_text(p, host.cwd)),
                    LocView::Zip { .. } => seq![],
                }
            } else {
                match self.active {
                    Panel::Sf2 => seq![
                        EffectView::LoadFont { loc: e.loc, remember: true, adopt: true },
                    ],
                    Panel::Midi => seq![EffectView::Play { loc: e.loc, count: true }],
                }
            },
            None => seq![],
        }
    }
}

impl App {
    /// Open a playlist file from the MIDI panel into the overlay, without
    /// playing it. Unsaved edits to the open playlist are only dropped when
    /// the same file is opened a second time in a row.
    pub fn open_playlist(&mut self, path: &str, host: &Host) -> (r: Vec<Effect>)
        ensures
            old(self)@.wf() ==> final(self)@.wf(),
            final(self)@ == old(self)@.opening(host::absolute_text(path@, host@.cwd)),
            effects(r@) == old(self)@.opening_effects(host::absolute_text(path@, host@.cwd)),
    {
        let mut out: Vec<Effect> = Vec::new();
        let p = absolute(path, host);
        let armed = match &self.discard_armed {
            Some(Discard::Open(q)) => same_path(q.as_str(), p.as_str()),
            _ => false,
        };
        if self.playlist.is_dirty() && !armed {
            let mut m =
                "The playlist has unsaved changes — Enter again to discard them and open ".to_owned();
            match file_name_of(p.as_str()) {
                Some(n) => {
                    let shown = shown_text(n.as_str());
                    m.append(shown.as_str());
                },
                None => {
                    proof {
                        assert(m@ + Seq::<char>::empty() =~= m@);
                    }
                },
            }
            self.discard_armed = Some(Discard::Open(p));
            self.message = Some(m);
        } else {
            self.discard_armed = None;
            ask(&mut out, Effect::OpenPlaylist { path: p });
        }
        out
    }

    /// Enter directory or act on the selected file depending on the panel.
    pub fn activate_selection(&mut self, host: &Host) -> (r: Vec<Effect>)
        ensures
            old(self)@.wf() ==> final(self)@.wf(),
            final(self)@ == old(self)@.activated(host@),
            effects(r@) == old(self)@.activate_effects(host@),
    {
        let mut out: Vec<Effect> = Vec::new();
        let (is_dir, loc) = match self.focused().selected() {
            Some(e) => (e.is_dir, e.loc.clone()),
            None => {
                return out;
            },
        };
        if is_dir {
            ask(&mut out, Effect::EnterDir(self.active));
            return out;
        }
        let name = loc.file_name();
        if self.active == Panel::Midi && is_playlist_name(name.as_str()) {
            return match &loc {
                Location::Fs(p) => self.open_playlist(p.as_str(), host),
                Location::Zip { .. } => out,
            };
        }
        self.discard_armed = None;
        match self.active {
            // Loading a font by hand is the A/B move; it does not leave the
            // favourites or the playlist, whose next entry brings its own font
            // (or, in a playlist, plays through this one).
            Panel::Sf2 => ask(&mut out, Effect::LoadFont { loc, remember: true, adopt: true }),
            // Playing from the panel hands the queue back to the directory.
            Panel::Midi => {
                self.play_source = PlaySource::Directory;
                ask(&mut out, Effect::Play { loc, count: true });
            },
        }
        out
    }

    /// Push the active panel's filter to match the current search buffer.
    fn apply_search(&mut self)
        ensures
            final(self)@ == old(self)@.searching(old(self)@.search),
    {
        let q = match &self.search {
            Some(q) => q.clone(),
            None => String::new(),
        };
        self.active_browser().set_filter(q.as_str());
    }

    pub fn search_push(&mut self, c: char)
        ensures
            old(self)@.wf() ==> final(self)@.wf(),
            final(self)@ == old(self)@.searching(
                match old(self)@.search {
                    Some(q) => Some(q.push(c)),
                    None => None,
                },
            ),
    {
        match self.search.take() {
            Some(q) => {
                let mut t = q;
                t.push(c);
                self.search = Some(t);
            },
            None => {},
        }
        self.apply_search();
    }

    pub fn search_backspace(&mut self)
        ensures
            old(self)@.wf() ==> final(self)@.wf(),
            final(self)@ == old(self)@.searching(
                match old(self)@.search {
                    Some(q) => Some(shortened(q)),
                    None => None,
                },
            ),
    {
        match self.search.take() {
            Some(q) => {
                self.search = Some(shorten(q.as_str()));
            },
            None => {},
        }
        self.apply_search();
    }

    /// Leave search mode, clearing the filter and restoring the full listing.
    pub fn search_cancel(&mut self)
        ensures
            old(self)@.wf() ==> final(self)@.wf(),
            final(self)@ == old(self)@.searching(None),
    {
        self.search = None;
        self.apply_search();
    }

    /// Accept the highlighted match: act on it (play / load / enter dir), then
    /// leave search mode and restore the full listing (cursor stays on the item
    /// when it is still present).
    pub fn search_accept(&mut self, host: &Host) -> (r: Vec<Effect>)
        ensures
            old(self)@.wf() ==> final(self)@.wf(),
            final(self)@ == (AppView { search: None, ..old(self)@ }).activated(host@),
            effects(r@) == (AppView { search: None, ..old(self)@ }).activate_effects(host@).push(
                EffectView::ClearFilter(old(self)@.active),
            ),
    {
        self.search = None;
        let panel = self.active;
        assert(self@ == (AppView { search: None, ..old(self)@ }));
        let mut out = self.activate_selection(host);
        ask(&mut out, Effect::ClearFilter(panel));
        out
    }

    /// Drop a panel's filter.
    pub fn clear_filter(&mut self, panel: Panel)
        ensures
            final(self)@ == (match panel {
                Panel::Midi => AppView {
                    midi: (BrowserView {
                        filter: text::lower(seq![]),
                        ..old(self)@.midi
                    }).refiltered(),
                    ..old(self)@
                },
                Panel::Sf2 => AppView {
                    sf2: (BrowserView {
                        filter: text::lower(seq![]),
                        ..old(self)@.sf2
                    }).refiltered(),
                    ..old(self)@
                },
            }),
    {
        let none = String::new();
        match panel {
            Panel::Midi => self.midi.set_filter(none.as_str()),
            Panel::Sf2 => self.sf2.set_filter(none.as_str()),
        }
    }
}

} // verus!
