//! What the keys do.

use crate::app;
use crate::app::{
    ask, App, AppView, Discard, DiscardView, Effect, EffectView, OverlayView, Source, World, WorldView,
};
use crate::browser::BrowserView;
use crate::cursor;
use vstd::prelude::*;

verus! {

/// A key.
#[derive(Clone, Copy, PartialEq, Eq, Structural, Debug)]
pub enum Code {
    Char(char),
    Enter,
    Esc,
    Tab,
    BackTab,
    Backspace,
    Up,
    Down,
    Left,
    Right,
    PageUp,
    PageDown,
    Home,
    End,
    Other,
}

/// A keypress: the key and what was held down with it.
#[derive(Clone, Copy, PartialEq, Eq, Structural, Debug)]
pub struct Key {
    pub code: Code,
    pub ctrl: bool,
    pub alt: bool,
    pub shift: bool,
}

/// Where a cursor goes.
#[derive(Clone, Copy, PartialEq, Eq, Structural, Debug)]
pub enum Motion {
    Up(usize),
    Down(usize),
    First,
    Last,
}

/// Pause, stop, seek, volume and the playback modes, shared by the panels and
/// the overlays.
#[derive(Clone, Copy, PartialEq, Eq, Structural, Debug)]
pub enum Transport {
    Pause,
    Stop,
    Seek(i32),
    VolumeBy(i32),
    Volume(u8),
    NextMode,
    Repeat,
}

/// What a key means in the panels.
#[derive(Clone, Copy, PartialEq, Eq, Structural, Debug)]
pub enum PanelCommand {
    Quit,
    Switch,
    Move(Motion),
    Activate,
    Up,
    Goto,
    ShowCurrent,
    Open(Source),
    Star,
    Add { with_font: bool },
    Hidden,
    Reload,
    Search,
    Help,
    Nothing,
}

/// What a key means in an overlay.
#[derive(Clone, Copy, PartialEq, Eq, Structural, Debug)]
pub enum OverlayCommand {
    Close,
    Toggle(Source),
    SetFont { pin: bool },
    Save { save_as: bool },
    Activate,
    CycleView,
    Locate,
    Delete,
    Star,
    Clear,
    Shift { down: bool },
    StartFilter,
    CancelFilter,
    Backspace,
    Push(char),
    Move(Motion),
    Nothing,
}

/// What a key means in the path prompt.
#[derive(Clone, Copy, PartialEq, Eq, Structural, Debug)]
pub enum PromptCommand {
    Cancel,
    Submit,
    Complete,
    DeleteComponent,
    Backspace,
    Push(char),
    Nothing,
}

/// What a key means while searching.
#[derive(Clone, Copy, PartialEq, Eq, Structural, Debug)]
pub enum SearchCommand {
    Cancel,
    Accept,
    Move(Motion),
    Backspace,
    Push(char),
    Nothing,
}

// --- which key means what ---------------------------------------------------

/// The motion a key stands for.
pub open spec fn motion_of(code: Code) -> Option<Motion> {
    match code {
        Code::Up => Some(Motion::Up(1)),
        Code::Down => Some(Motion::Down(1)),
        Code::PageUp => Some(Motion::Up(10)),
        Code::PageDown => Some(Motion::Down(10)),
        Code::Home => Some(Motion::First),
        Code::End => Some(Motion::Last),
        _ => None,
    }
}

fn motion(code: Code) -> (r: Option<Motion>)
    ensures
        r == motion_of(code),
{
    match code {
        Code::Up => Some(Motion::Up(1)),
        Code::Down => Some(Motion::Down(1)),
        Code::PageUp => Some(Motion::Up(10)),
        Code::PageDown => Some(Motion::Down(10)),
        Code::Home => Some(Motion::First),
        Code::End => Some(Motion::Last),
        _ => None,
    }
}

/// The playback control a key stands for. Neither the panels nor the overlays
/// give these keys another meaning.
pub open spec fn transport_of(key: Key) -> Option<Transport> {
    match key.code {
        Code::Left => Some(Transport::Seek((-5) as i32)),
        Code::Right => Some(Transport::Seek(5)),
        Code::Char(c) => if c == 'p' || c == ' ' {
            Some(Transport::Pause)
        } else if c == 's' {
            Some(Transport::Stop)
        } else if c == '[' {
            Some(Transport::Seek((-30) as i32))
        } else if c == ']' {
            Some(Transport::Seek(30))
        } else if c == '<' {
            Some(Transport::VolumeBy((-1) as i32))
        } else if c == '>' {
            Some(Transport::VolumeBy(1))
        } else if c == ',' {
            Some(Transport::VolumeBy((-5) as i32))
        } else if c == '.' {
            Some(Transport::VolumeBy(5))
        } else if key.alt && '1' <= c <= '9' {
            Some(Transport::Volume(((c as int - '0' as int) * 10) as u8))
        } else if c == 'n' {
            Some(Transport::NextMode)
        } else if c == 'r' && !key.ctrl {
            Some(Transport::Repeat)
        } else {
            None
        },
        _ => None,
    }
}

fn transport(key: Key) -> (r: Option<Transport>)
    ensures
        r == transport_of(key),
{
    match key.code {
        Code::Left => Some(Transport::Seek(-5)),
        Code::Right => Some(Transport::Seek(5)),
        Code::Char(c) => match c {
            'p' | ' ' => Some(Transport::Pause),
            's' => Some(Transport::Stop),
            '[' => Some(Transport::Seek(-30)),
            ']' => Some(Transport::Seek(30)),
            '<' => Some(Transport::VolumeBy(-1)),
            '>' => Some(Transport::VolumeBy(1)),
            ',' => Some(Transport::VolumeBy(-5)),
            '.' => Some(Transport::VolumeBy(5)),
            'n' => Some(Transport::NextMode),
            'r' => if key.ctrl {
                None
            } else {
                Some(Transport::Repeat)
            },
            _ => {
                let d: u32 = c as u32;
                if key.alt && 49 <= d && d <= 57 {
                    Some(Transport::Volume(((d - 48) * 10) as u8))
                } else {
                    None
                }
            },
        },
        _ => None,
    }
}

/// What a key means in the panels, when it is no playback control.
pub open spec fn panel_command_of(key: Key) -> PanelCommand {
    match key.code {
        Code::Tab => PanelCommand::Switch,
        Code::BackTab => PanelCommand::Switch,
        Code::Enter => PanelCommand::Activate,
        Code::Char(c) => if c == 'q' || c == 'Q' {
            PanelCommand::Quit
        } else if c == 'U' {
            PanelCommand::Up
        } else if c == 'i' {
            PanelCommand::Goto
        } else if c == 'G' {
            PanelCommand::ShowCurrent
        } else if c == 'R' {
            PanelCommand::Open(Source::History)
        } else if c == 'F' {
            PanelCommand::Open(Source::Favourites)
        } else if c == 'P' {
            PanelCommand::Open(Source::Playlist)
        } else if c == 'f' {
            PanelCommand::Star
        } else if c == 'a' {
            PanelCommand::Add { with_font: false }
        } else if c == 'A' {
            PanelCommand::Add { with_font: true }
        } else if c == 'H' {
            PanelCommand::Hidden
        } else if c == 'r' && key.ctrl {
            PanelCommand::Reload
        } else if c == '/' || c == 'g' {
            PanelCommand::Search
        } else if c == 'h' || c == '?' {
            PanelCommand::Help
        } else {
            PanelCommand::Nothing
        },
        other => match motion_of(other) {
            Some(m) => PanelCommand::Move(m),
            None => PanelCommand::Nothing,
        },
    }
}

fn panel_command(key: Key) -> (r: PanelCommand)
    ensures
        r == panel_command_of(key),
{
    match key.code {
        Code::Tab => PanelCommand::Switch,
        Code::BackTab => PanelCommand::Switch,
        Code::Enter => PanelCommand::Activate,
        Code::Char(c) => match c {
            'q' | 'Q' => PanelCommand::Quit,
            'U' => PanelCommand::Up,
            'i' => PanelCommand::Goto,
            // Jump to the currently playing MIDI / loaded SoundFont.
            'G' => PanelCommand::ShowCurrent,
            // Playing history and favourites.
            'R' => PanelCommand::Open(Source::History),
            'F' => PanelCommand::Open(Source::Favourites),
            'f' => PanelCommand::Star,
            // The playlist: open it, or add the track under the cursor to it.
            'P' => PanelCommand::Open(Source::Playlist),
            'a' => PanelCommand::Add { with_font: false },
            'A' => PanelCommand::Add { with_font: true },
            'H' => PanelCommand::Hidden,
            // Ctrl-r reloads the active panel.
            'r' => if key.ctrl {
                PanelCommand::Reload
            } else {
                PanelCommand::Nothing
            },
            '/' | 'g' => PanelCommand::Search,
            'h' | '?' => PanelCommand::Help,
            _ => PanelCommand::Nothing,
        },
        other => match motion(other) {
            Some(m) => PanelCommand::Move(m),
            None => PanelCommand::Nothing,
        },
    }
}

/// Cursor movement inside the overlay. Shifted arrows move the selected
/// favourite or item, not the cursor.
pub open spec fn overlay_motion_of(key: Key) -> OverlayCommand {
    if key.shift && key.code == Code::Up {
        OverlayCommand::Shift { down: false }
    } else if key.shift && key.code == Code::Down {
        OverlayCommand::Shift { down: true }
    } else {
        match motion_of(key.code) {
            Some(m) => OverlayCommand::Move(m),
            None => OverlayCommand::Nothing,
        }
    }
}

fn overlay_motion(key: Key) -> (r: OverlayCommand)
    ensures
        r == overlay_motion_of(key),
{
    if key.shift {
        match key.code {
            Code::Up => {
                return OverlayCommand::Shift { down: false };
            },
            Code::Down => {
                return OverlayCommand::Shift { down: true };
            },
            _ => {},
        }
    }
    match motion(key.code) {
        Some(m) => OverlayCommand::Move(m),
        None => OverlayCommand::Nothing,
    }
}

/// What a key means while the overlay's filter captures keys: printable ones
/// go into it, cursor keys still move.
pub open spec fn filter_command_of(key: Key) -> OverlayCommand {
    match key.code {
        Code::Esc => OverlayCommand::CancelFilter,
        Code::Enter => OverlayCommand::Activate,
        Code::Backspace => OverlayCommand::Backspace,
        Code::Char(c) => OverlayCommand::Push(c),
        _ => overlay_motion_of(key),
    }
}

fn filter_command(key: Key) -> (r: OverlayCommand)
    ensures
        r == filter_command_of(key),
{
    match key.code {
        Code::Esc => OverlayCommand::CancelFilter,
        Code::Enter => OverlayCommand::Activate,
        Code::Backspace => OverlayCommand::Backspace,
        Code::Char(c) => OverlayCommand::Push(c),
        _ => overlay_motion(key),
    }
}

/// What a key means in an overlay, when it is no playback control.
pub open spec fn overlay_command_of(key: Key) -> OverlayCommand {
    match key.code {
        Code::Esc => OverlayCommand::Close,
        Code::Enter => OverlayCommand::Activate,
        Code::Tab => OverlayCommand::CycleView,
        Code::BackTab => OverlayCommand::CycleView,
        Code::Char(c) => if c == 'q' || c == 'Q' {
            OverlayCommand::Close
        } else if c == 'R' {
            OverlayCommand::Toggle(Source::History)
        } else if c == 'F' {
            OverlayCommand::Toggle(Source::Favourites)
        } else if c == 'P' {
            OverlayCommand::Toggle(Source::Playlist)
        } else if c == 'S' {
            OverlayCommand::SetFont { pin: true }
        } else if c == 'x' {
            OverlayCommand::SetFont { pin: false }
        } else if c == 'w' {
            OverlayCommand::Save { save_as: false }
        } else if c == 'W' {
            OverlayCommand::Save { save_as: true }
        } else if c == 'G' {
            OverlayCommand::Locate
        } else if c == 'd' {
            OverlayCommand::Delete
        } else if c == 'f' {
            OverlayCommand::Star
        } else if c == 'D' {
            OverlayCommand::Clear
        } else if c == 'J' {
            OverlayCommand::Shift { down: true }
        } else if c == 'K' {
            OverlayCommand::Shift { down: false }
        } else if c == '/' || c == 'g' {
            OverlayCommand::StartFilter
        } else {
            OverlayCommand::Nothing
        },
        _ => overlay_motion_of(key),
    }
}

fn overlay_command(key: Key) -> (r: OverlayCommand)
    ensures
        r == overlay_command_of(key),
{
    match key.code {
        Code::Esc => OverlayCommand::Close,
        Code::Enter => OverlayCommand::Activate,
        Code::Tab => OverlayCommand::CycleView,
        Code::BackTab => OverlayCommand::CycleView,
        Code::Char(c) => match c {
            'q' | 'Q' => OverlayCommand::Close,
            'R' => OverlayCommand::Toggle(Source::History),
            'F' => OverlayCommand::Toggle(Source::Favourites),
            'P' => OverlayCommand::Toggle(Source::Playlist),
            // Playlist editing; each is a no-op in the other overlays.
            'S' => OverlayCommand::SetFont { pin: true },
            'x' => OverlayCommand::SetFont { pin: false },
            'w' => OverlayCommand::Save { save_as: false },
            'W' => OverlayCommand::Save { save_as: true },
            'G' => OverlayCommand::Locate,
            'd' => OverlayCommand::Delete,
            'f' => OverlayCommand::Star,
            'D' => OverlayCommand::Clear,
            // Reorder the list. J/K are there for terminals that swallow
            // shifted arrows.
            'J' => OverlayCommand::Shift { down: true },
            'K' => OverlayCommand::Shift { down: false },
            '/' | 'g' => OverlayCommand::StartFilter,
            _ => OverlayCommand::Nothing,
        },
        _ => overlay_motion(key),
    }
}

/// What a key means in the path prompt.
pub open spec fn prompt_command_of(key: Key) -> PromptCommand {
    match key.code {
        Code::Esc => PromptCommand::Cancel,
        Code::Enter => PromptCommand::Submit,
        Code::Tab => PromptCommand::Complete,
        Code::Backspace => if key.alt {
            PromptCommand::DeleteComponent
        } else {
            PromptCommand::Backspace
        },
        Code::Char(c) => if c == 'w' && key.ctrl {
            PromptCommand::DeleteComponent
        } else {
            PromptCommand::Push(c)
        },
        _ => PromptCommand::Nothing,
    }
}

fn prompt_command(key: Key) -> (r: PromptCommand)
    ensures
        r == prompt_command_of(key),
{
    match key.code {
        Code::Esc => PromptCommand::Cancel,
        Code::Enter => PromptCommand::Submit,
        Code::Tab => PromptCommand::Complete,
        // Alt+Backspace / Ctrl+W: delete the previous path component.
        Code::Backspace => if key.alt {
            PromptCommand::DeleteComponent
        } else {
            PromptCommand::Backspace
        },
        Code::Char(c) => if c == 'w' && key.ctrl {
            PromptCommand::DeleteComponent
        } else {
            PromptCommand::Push(c)
        },
        _ => PromptCommand::Nothing,
    }
}

/// What a key means while searching.
pub open spec fn search_command_of(key: Key) -> SearchCommand {
    match key.code {
        Code::Esc => SearchCommand::Cancel,
        Code::Enter => SearchCommand::Accept,
        Code::Backspace => SearchCommand::Backspace,
        Code::Char(c) => SearchCommand::Push(c),
        other => match motion_of(other) {
            Some(m) => SearchCommand::Move(m),
            None => SearchCommand::Nothing,
        },
    }
}

fn search_command(key: Key) -> (r: SearchCommand)
    ensures
        r == search_command_of(key),
{
    match key.code {
        Code::Esc => SearchCommand::Cancel,
        // Act on the highlighted match and leave the filter.
        Code::Enter => SearchCommand::Accept,
        Code::Backspace => SearchCommand::Backspace,
        Code::Char(c) => SearchCommand::Push(c),
        // Move within the filtered matches without leaving search.
        other => match motion(other) {
            Some(m) => SearchCommand::Move(m),
            None => SearchCommand::Nothing,
        },
    }
}

// --- doing it ---------------------------------------------------------------

/// The cursor after a motion through a list of `len` rows.
pub open spec fn after(m: Motion, at: Option<usize>, len: int) -> Option<usize> {
    match m {
        Motion::Up(n) => cursor::up(at, n, len),
        Motion::Down(n) => cursor::down(at, n, len),
        Motion::First => cursor::first(at, len),
        Motion::Last => cursor::last(at, len),
    }
}

impl AppView {
    /// With the cursor of the active panel moved.
    pub open spec fn panel_moved(self, m: Motion) -> AppView {
        let b = self.active_panel();
        self.with_active(BrowserView { at: after(m, b.at, b.entries.len() as int), ..b })
    }

    /// With the cursor of the overlay moved.
    pub open spec fn overlay_moved(self, m: Motion) -> AppView {
        match self.overlay {
            Some(o) => AppView {
                overlay: Some(OverlayView { at: after(m, o.at, o.rows.len() as int), ..o }),
                ..self
            },
            None => self,
        }
    }

    /// With a playback control worked.
    pub open spec fn transported(self, t: Transport, w: WorldView) -> AppView {
        match t {
            Transport::Pause => self.pause_toggled(w.ns),
            Transport::Stop => self.stopped(w),
            Transport::Seek(secs) => self.sought(secs, w.ns),
            Transport::VolumeBy(d) => AppView {
                volume: app::within(self.volume + d, 0, 100) as u8,
                ..self
            },
            Transport::Volume(v) => AppView {
                volume: if v <= 100 {
                    v
                } else {
                    100
                },
                ..self
            },
            Transport::NextMode => AppView {
                next_mode: !self.next_mode,
                message: Some("Next: "@ + app::on_off_text(!self.next_mode)),
                ..self
            },
            Transport::Repeat => AppView {
                repeat: !self.repeat,
                message: Some("Repeat: "@ + app::on_off_text(!self.repeat)),
                ..self
            },
        }
    }

    pub open spec fn transport_effects(
        self,
        t: Transport,
        w: WorldView,
        position: Option<(i32, i32)>,
    ) -> Seq<EffectView> {
        match t {
            Transport::Pause => self.pause_effects(),
            Transport::Stop => self.stop_effects(w.ns),
            Transport::Seek(secs) => if self.state == app::PlayState::Stopped {
                seq![]
            } else {
                seq![
                    EffectView::SeekTicks(
                        app::seek_delta(secs, self.counted(w.ns) as int, position),
                    ),
                ]
            },
            Transport::VolumeBy(_) => seq![EffectView::SetGain(self.transported(t, w).volume)],
            Transport::Volume(_) => seq![EffectView::SetGain(self.transported(t, w).volume)],
            Transport::NextMode => seq![],
            Transport::Repeat => seq![],
        }
    }

    /// With a command of the panels obeyed.
    pub open spec fn panel_obeyed(self, c: PanelCommand, w: WorldView) -> AppView {
        match c {
            PanelCommand::Quit => self.quitting(),
            PanelCommand::Switch => AppView {
                active: if self.active == app::Panel::Midi {
                    app::Panel::Sf2
                } else {
                    app::Panel::Midi
                },
                ..self
            },
            PanelCommand::Move(m) => self.panel_moved(m),
            PanelCommand::Activate => self.activated(w.host),
            PanelCommand::Goto => AppView {
                prompt: Some(
                    app::PromptView {
                        kind: app::PromptKind::Goto,
                        buf: crate::prompt::slashed(
                            crate::raw::shown(self.active_panel().dir.fs_dir()),
                        ),
                        confirm: None,
                    },
                ),
                ..self
            },
            PanelCommand::ShowCurrent => self.gone_to_current(),
            PanelCommand::Open(source) => self.opened(source, w.disk),
            PanelCommand::Star => match (self.now_playing, self.soundfont) {
                (Some(m), Some(sf)) => self.starred(m, sf, w.unix),
                _ => self.saying("Nothing playing — a favourite is a track + SoundFont pair"@),
            },
            PanelCommand::Add { with_font } => self.added(with_font, w.host),
            PanelCommand::Hidden => {
                let show = !self.active_panel().show_hidden;
                AppView {
                    midi: BrowserView { show_hidden: show, ..self.midi },
                    sf2: BrowserView { show_hidden: show, ..self.sf2 },
                    ..self
                }
            },
            PanelCommand::Search => AppView { search: Some(seq![]), ..self },
            PanelCommand::Help => AppView { show_help: true, ..self },
            PanelCommand::Up => self,
            PanelCommand::Reload => self,
            PanelCommand::Nothing => self,
        }
    }

    pub open spec fn panel_effects(self, c: PanelCommand, w: WorldView) -> Seq<EffectView> {
        match c {
            PanelCommand::Activate => self.activate_effects(w.host),
            PanelCommand::ShowCurrent => self.goto_effects(),
            PanelCommand::Star => if self.now_playing is Some && self.soundfont is Some {
                seq![EffectView::SaveFavourites]
            } else {
                seq![]
            },
            PanelCommand::Hidden => seq![
                EffectView::Refresh(app::Panel::Midi),
                EffectView::Refresh(app::Panel::Sf2),
            ],
            PanelCommand::Up => seq![EffectView::GoUp(self.active)],
            PanelCommand::Reload => seq![EffectView::Refresh(self.active)],
            _ => seq![],
        }
    }

    /// With a command of the overlay obeyed.
    pub open spec fn overlay_obeyed(self, c: OverlayCommand, w: WorldView) -> AppView {
        match c {
            OverlayCommand::Close => AppView { overlay: None, ..self },
            // The key of the store that shows closes it; those of the others
            // switch to them.
            OverlayCommand::Toggle(source) => if self.overlay_source() == Some(source) {
                AppView { overlay: None, ..self }
            } else {
                self.opened(source, w.disk)
            },
            OverlayCommand::SetFont { pin } => self.font_set(pin, w.host, w.disk),
            OverlayCommand::Save { save_as } => self.saving(save_as),
            OverlayCommand::Activate => self.overlay_activated(w.disk),
            OverlayCommand::CycleView => self.view_cycled(w.disk),
            OverlayCommand::Locate => if self.overlay_row() is Some {
                AppView { overlay: None, ..self }
            } else {
                self
            },
            OverlayCommand::Delete => self.row_deleted(w.disk),
            OverlayCommand::Star => self.row_starred(w),
            OverlayCommand::Clear => self.cleared(w.disk),
            OverlayCommand::Shift { down } => self.row_moved(down, w.disk),
            OverlayCommand::StartFilter => self.refiltered(seq![], true, w.disk),
            OverlayCommand::CancelFilter => self.refiltered(seq![], false, w.disk),
            OverlayCommand::Backspace => match self.overlay {
                Some(o) => self.refiltered(app::shortened(o.filter), o.filtering, w.disk),
                None => self,
            },
            OverlayCommand::Push(c) => match self.overlay {
                Some(o) => self.refiltered(o.filter.push(c), o.filtering, w.disk),
                None => self,
            },
            OverlayCommand::Move(m) => self.overlay_moved(m),
            OverlayCommand::Nothing => self,
        }
    }

    pub open spec fn overlay_effects(self, c: OverlayCommand, w: WorldView) -> Seq<EffectView> {
        match c {
            OverlayCommand::Save { save_as } => self.saving_effects(save_as, w.host.cwd),
            OverlayCommand::Activate => self.overlay_activate_effects(w.disk),
            OverlayCommand::Locate => match self.overlay_row() {
                Some(r) => app::reveals(r.midi, r.soundfont),
                None => seq![],
            },
            OverlayCommand::Delete => self.delete_effects(),
            OverlayCommand::Star => self.row_star_effects(),
            OverlayCommand::Clear => self.clear_effects(),
            OverlayCommand::Shift { down } => self.move_effects(down),
            _ => seq![],
        }
    }

    /// With a command of the prompt obeyed.
    pub open spec fn prompt_obeyed(self, c: PromptCommand, w: WorldView) -> AppView {
        match (c, self.prompt) {
            (PromptCommand::Cancel, _) => AppView { prompt: None, ..self },
            (PromptCommand::Submit, _) => self.submitted(w),
            (PromptCommand::DeleteComponent, Some(p)) => self.prompt_edited(
                crate::prompt::without_component(p.buf),
            ),
            (PromptCommand::Backspace, Some(p)) => self.prompt_edited(app::shortened(p.buf)),
            (PromptCommand::Push(c), Some(p)) => self.prompt_edited(p.buf.push(c)),
            _ => self,
        }
    }

    pub open spec fn prompt_effects(self, c: PromptCommand, w: WorldView) -> Seq<EffectView> {
        match c {
            PromptCommand::Submit => self.submit_effects(w),
            PromptCommand::Complete => seq![EffectView::CompletePrompt],
            _ => seq![],
        }
    }

    /// With a command of the search obeyed.
    pub open spec fn search_obeyed(self, c: SearchCommand, w: WorldView) -> AppView {
        match c {
            SearchCommand::Cancel => self.searching(None),
            SearchCommand::Accept => (AppView { search: None, ..self }).activated(w.host),
            SearchCommand::Move(m) => self.panel_moved(m),
            SearchCommand::Backspace => self.searching(
                match self.search {
                    Some(q) => Some(app::shortened(q)),
                    None => None,
                },
            ),
            SearchCommand::Push(c) => self.searching(
                match self.search {
                    Some(q) => Some(q.push(c)),
                    None => None,
                },
            ),
            SearchCommand::Nothing => self,
        }
    }

    pub open spec fn search_effects(self, c: SearchCommand, w: WorldView) -> Seq<EffectView> {
        match c {
            SearchCommand::Accept => (AppView { search: None, ..self }).activate_effects(
                w.host,
            ).push(EffectView::ClearFilter(self.active)),
            _ => seq![],
        }
    }
}

impl App {
    fn move_panel(&mut self, m: Motion)
        ensures
            old(self)@.wf() ==> final(self)@.wf(),
            final(self)@ == old(self)@.panel_moved(m),
    {
        let b = self.active_browser();
        match m {
            Motion::Up(n) => b.move_up(n),
            Motion::Down(n) => b.move_down(n),
            Motion::First => b.home(),
            Motion::Last => b.end(),
        }
    }

    fn move_overlay(&mut self, m: Motion)
        ensures
            old(self)@.wf() ==> final(self)@.wf(),
            final(self)@ == old(self)@.overlay_moved(m),
    {
        match &mut self.overlay {
            Some(o) => match m {
                Motion::Up(n) => o.move_up(n),
                Motion::Down(n) => o.move_down(n),
                Motion::First => o.home(),
                Motion::Last => o.end(),
            },
            None => {},
        }
    }

    fn do_transport(&mut self, t: Transport, world: &World, position: Option<(i32, i32)>) -> (r:
        Vec<Effect>)
        requires
            old(self)@.wf(),
        ensures
            final(self)@.wf(),
            final(self)@ == old(self)@.transported(t, world@),
            app::effects(r@) == old(self)@.transport_effects(t, world@, position),
    {
        match t {
            Transport::Pause => self.toggle_pause(world.ns),
            Transport::Stop => self.stop(world),
            Transport::Seek(secs) => self.seek_seconds(secs, world.ns, position),
            Transport::VolumeBy(d) => self.volume_delta(d),
            Transport::Volume(v) => self.set_volume(v),
            Transport::NextMode => {
                self.toggle_next_mode();
                Vec::new()
            },
            Transport::Repeat => {
                self.toggle_repeat();
                Vec::new()
            },
        }
    }

    fn open_list(&mut self, source: Source, world: &World)
        requires
            old(self)@.wf(),
        ensures
            final(self)@.wf(),
            final(self)@ == old(self)@.opened(source, world@.disk),
    {
        match source {
            Source::History => self.history_open(&world.disk),
            Source::Favourites => self.favourites_open(&world.disk),
            Source::Playlist => self.playlist_open(&world.disk),
        }
    }

    #[verifier::rlimit(30)]
    fn do_panel(&mut self, c: PanelCommand, world: &World) -> (r: Vec<Effect>)
        requires
            old(self)@.wf(),
            old(self)@.playlist.next_id < u64::MAX,
        ensures
            final(self)@.wf(),
            final(self)@ == old(self)@.panel_obeyed(c, world@),
            app::effects(r@) == old(self)@.panel_effects(c, world@),
    {
        let mut out: Vec<Effect> = Vec::new();
        match c {
            PanelCommand::Quit => self.request_quit(),
            PanelCommand::Switch => self.toggle_panel(),
            PanelCommand::Move(m) => self.move_panel(m),
            PanelCommand::Activate => {
                return self.activate_selection(&world.host);
            },
            PanelCommand::Up => ask(&mut out, Effect::GoUp(self.active)),
            PanelCommand::Goto => self.start_goto(),
            PanelCommand::ShowCurrent => {
                return self.goto_current();
            },
            PanelCommand::Open(source) => self.open_list(source, world),
            PanelCommand::Star => {
                return self.toggle_favourite(world.unix);
            },
            PanelCommand::Add { with_font } => self.playlist_add(with_font, &world.host),
            PanelCommand::Hidden => {
                return self.toggle_hidden();
            },
            PanelCommand::Reload => ask(&mut out, Effect::Refresh(self.active)),
            PanelCommand::Search => {
                self.search = Some(String::new());
            },
            PanelCommand::Help => {
                self.show_help = true;
            },
            PanelCommand::Nothing => {},
        }
        out
    }

    fn toggle_list(&mut self, source: Source, world: &World)
        requires
            old(self)@.wf(),
        ensures
            final(self)@.wf(),
            final(self)@ == if old(self)@.overlay_source() == Some(source) {
                AppView { overlay: None, ..old(self)@ }
            } else {
                old(self)@.opened(source, world@.disk)
            },
    {
        let showing = match self.overlay_source() {
            Some(s) => s == source,
            None => false,
        };
        if showing {
            self.overlay_close();
        } else {
            self.open_list(source, world);
        }
    }

    fn do_overlay(&mut self, c: OverlayCommand, world: &World) -> (r: Vec<Effect>)
        requires
            old(self)@.wf(),
        ensures
            final(self)@.wf(),
            final(self)@ == old(self)@.overlay_obeyed(c, world@),
            app::effects(r@) == old(self)@.overlay_effects(c, world@),
    {
        match c {
            OverlayCommand::Close => self.overlay_close(),
            OverlayCommand::Toggle(source) => self.toggle_list(source, world),
            OverlayCommand::SetFont { pin } => self.overlay_set_font(
                pin,
                &world.host,
                &world.disk,
            ),
            OverlayCommand::Save { save_as } => {
                return self.overlay_save(save_as, &world.host);
            },
            OverlayCommand::Activate => {
                return self.overlay_activate(&world.disk);
            },
            OverlayCommand::CycleView => self.overlay_cycle_view(&world.disk),
            OverlayCommand::Locate => {
                return self.overlay_reveal();
            },
            OverlayCommand::Delete => {
                return self.overlay_delete(&world.disk);
            },
            OverlayCommand::Star => {
                return self.overlay_toggle_favourite(world);
            },
            OverlayCommand::Clear => {
                return self.history_clear(&world.disk);
            },
            OverlayCommand::Shift { down } => {
                return self.overlay_move(down, &world.disk);
            },
            OverlayCommand::StartFilter => self.overlay_start_filter(&world.disk),
            OverlayCommand::CancelFilter => self.overlay_filter_cancel(&world.disk),
            OverlayCommand::Backspace => self.overlay_filter_backspace(&world.disk),
            OverlayCommand::Push(c) => self.overlay_filter_push(c, &world.disk),
            OverlayCommand::Move(m) => self.move_overlay(m),
            OverlayCommand::Nothing => {},
        }
        Vec::new()
    }

    fn do_prompt(&mut self, c: PromptCommand, world: &World) -> (r: Vec<Effect>)
        requires
            old(self)@.wf(),
        ensures
            final(self)@.wf(),
            final(self)@ == old(self)@.prompt_obeyed(c, world@),
            app::effects(r@) == old(self)@.prompt_effects(c, world@),
    {
        let mut out: Vec<Effect> = Vec::new();
        match c {
            PromptCommand::Cancel => self.prompt_cancel(),
            PromptCommand::Submit => {
                return self.prompt_submit(world);
            },
            PromptCommand::Complete => ask(&mut out, Effect::CompletePrompt),
            PromptCommand::DeleteComponent => self.prompt_delete_component(),
            PromptCommand::Backspace => self.prompt_backspace(),
            PromptCommand::Push(c) => self.prompt_push(c),
            PromptCommand::Nothing => {},
        }
        out
    }

    fn do_search(&mut self, c: SearchCommand, world: &World) -> (r: Vec<Effect>)
        requires
            old(self)@.wf(),
        ensures
            final(self)@.wf(),
            final(self)@ == old(self)@.search_obeyed(c, world@),
            app::effects(r@) == old(self)@.search_effects(c, world@),
    {
        match c {
            SearchCommand::Cancel => self.search_cancel(),
            SearchCommand::Accept => {
                return self.search_accept(&world.host);
            },
            SearchCommand::Move(m) => self.move_panel(m),
            SearchCommand::Backspace => self.search_backspace(),
            SearchCommand::Push(c) => self.search_push(c),
            SearchCommand::Nothing => {},
        }
        Vec::new()
    }
}

// --- a keypress -------------------------------------------------------------

impl AppView {
    /// True when a key is the one that asked the pending "discard unsaved
    /// playlist changes?" question, pressed again where it asked it: `q` to
    /// quit, `Enter` to open another playlist.
    pub open spec fn confirms(self, key: Key) -> bool {
        self.overlay is None && self.prompt is None && self.search is None
            && match self.discard_armed {
            Some(DiscardView::Quit) => key.code == Code::Char('q') || key.code == Code::Char('Q'),
            Some(DiscardView::Open(_)) => key.code == Code::Enter,
            None => false,
        }
    }

    /// With the "erase everything" question taken back.
    pub open spec fn confirm_cancelled(self) -> AppView {
        if self.overlay matches Some(o) && o.confirm_clear {
            AppView { message: None, ..self.asking(false) }
        } else {
            self
        }
    }

    /// Once an overlay that does not capture keys was left to a key.
    pub open spec fn spared(self, key: Key) -> AppView {
        if key.code == Code::Char('D') {
            self
        } else {
            self.confirm_cancelled()
        }
    }

    /// With a key pressed in an overlay.
    pub open spec fn overlay_keyed(self, key: Key, w: WorldView) -> AppView {
        if (self.overlay->0).filtering {
            self.overlay_obeyed(filter_command_of(key), w)
        } else {
            match transport_of(key) {
                Some(t) => self.spared(key).transported(t, w),
                None => self.spared(key).overlay_obeyed(overlay_command_of(key), w),
            }
        }
    }

    pub open spec fn overlay_key_effects(
        self,
        key: Key,
        w: WorldView,
        position: Option<(i32, i32)>,
    ) -> Seq<EffectView> {
        if (self.overlay->0).filtering {
            self.overlay_effects(filter_command_of(key), w)
        } else {
            match transport_of(key) {
                Some(t) => self.spared(key).transport_effects(t, w, position),
                None => self.spared(key).overlay_effects(overlay_command_of(key), w),
            }
        }
    }

    /// With a key pressed in whatever has the keyboard: the path prompt, which
    /// saving a playlist opens from inside the overlay, then the overlay, then
    /// the search, then the panels.
    #[verifier::opaque]
    pub open spec fn mode_keyed(self, key: Key, w: WorldView) -> AppView {
        if self.prompt is Some {
            self.prompt_obeyed(prompt_command_of(key), w)
        } else if self.overlay is Some {
            self.overlay_keyed(key, w)
        } else if self.search is Some {
            self.search_obeyed(search_command_of(key), w)
        } else {
            match transport_of(key) {
                Some(t) => self.transported(t, w),
                None => self.panel_obeyed(panel_command_of(key), w),
            }
        }
    }

    #[verifier::opaque]
    pub open spec fn mode_effects(
        self,
        key: Key,
        w: WorldView,
        position: Option<(i32, i32)>,
    ) -> Seq<EffectView> {
        if self.prompt is Some {
            self.prompt_effects(prompt_command_of(key), w)
        } else if self.overlay is Some {
            self.overlay_key_effects(key, w, position)
        } else if self.search is Some {
            self.search_effects(search_command_of(key), w)
        } else {
            match transport_of(key) {
                Some(t) => self.transport_effects(t, w, position),
                None => self.panel_effects(panel_command_of(key), w),
            }
        }
    }

    /// As a keypress finds it: a pending question whether to discard unsaved
    /// changes stands only while the key that asked it is pressed again.
    pub open spec fn met_by(self, key: Key) -> AppView {
        if self.confirms(key) {
            self
        } else {
            self.disarmed()
        }
    }

    /// With a key pressed. The help swallows the next keypress.
    pub open spec fn keyed(self, key: Key, w: WorldView) -> AppView {
        if self.show_help {
            AppView { show_help: false, ..self }
        } else {
            self.met_by(key).mode_keyed(key, w)
        }
    }

    pub open spec fn key_effects(
        self,
        key: Key,
        w: WorldView,
        position: Option<(i32, i32)>,
    ) -> Seq<EffectView> {
        if self.show_help {
            seq![]
        } else {
            self.met_by(key).mode_effects(key, w, position)
        }
    }
}

impl App {
    /// Keys while the history, favourites or playlist overlay is open. `Enter`
    /// plays the selected row with its SoundFont; the overlay otherwise
    /// navigates like a panel. The transport keys work here too, since an
    /// overlay stays open while its list plays.
    fn handle_overlay_key(&mut self, key: Key, world: &World, position: Option<(i32, i32)>) -> (r:
        Vec<Effect>)
        requires
            old(self)@.wf(),
            old(self)@.overlay is Some,
        ensures
            final(self)@.wf(),
            final(self)@ == old(self)@.overlay_keyed(key, world@),
            app::effects(r@) == old(self)@.overlay_key_effects(key, world@, position),
    {
        if self.overlay_filtering() {
            return self.do_overlay(filter_command(key), world);
        }
        // Any key other than a second `D` takes back the question whether to
        // erase everything.
        if key.code != Code::Char('D') {
            self.overlay_cancel_confirm();
        }
        match transport(key) {
            Some(t) => self.do_transport(t, world, position),
            None => self.do_overlay(overlay_command(key), world),
        }
    }

    fn handle_mode_key(&mut self, key: Key, world: &World, position: Option<(i32, i32)>) -> (r: Vec<
        Effect,
    >)
        requires
            old(self)@.wf(),
            old(self)@.playlist.next_id < u64::MAX,
        ensures
            final(self)@.wf(),
            final(self)@ == old(self)@.mode_keyed(key, world@),
            app::effects(r@) == old(self)@.mode_effects(key, world@, position),
    {
        reveal(AppView::mode_keyed);
        reveal(AppView::mode_effects);
        if self.prompt.is_some() {
            self.do_prompt(prompt_command(key), world)
        } else if self.overlay.is_some() {
            self.handle_overlay_key(key, world, position)
        } else if self.search.is_some() {
            self.do_search(search_command(key), world)
        } else {
            match transport(key) {
                Some(t) => self.do_transport(t, world, position),
                None => self.do_panel(panel_command(key), world),
            }
        }
    }

    fn meet(&mut self, key: Key)
        ensures
            final(self)@ == old(self)@.met_by(key),
            final(self)@.history == old(self)@.history,
            final(self)@.playlist == old(self)@.playlist,
    {
        let asked = match (&self.discard_armed, key.code) {
            (Some(Discard::Quit), Code::Char(c)) => c == 'q' || c == 'Q',
            (Some(Discard::Open(_)), Code::Enter) => true,
            _ => false,
        };
        let confirming = asked && self.overlay.is_none() && self.prompt.is_none()
            && self.search.is_none();
        if !confirming {
            self.disarm_discard();
        }
    }

    /// A key was pressed. `position` is the synth's tick and the total of
    /// ticks, when it is playing.
    pub fn handle_key(&mut self, key: Key, world: &World, position: Option<(i32, i32)>) -> (r: Vec<
        Effect,
    >)
        requires
            old(self)@.wf(),
            old(self)@.playlist.next_id < u64::MAX,
        ensures
            final(self)@.wf(),
            final(self)@ == old(self)@.keyed(key, world@),
            app::effects(r@) == old(self)@.key_effects(key, world@, position),
    {
        if self.show_help {
            self.show_help = false;
            return Vec::new();
        }
        self.meet(key);
        self.handle_mode_key(key, world, position)
    }
}

} // verus!
