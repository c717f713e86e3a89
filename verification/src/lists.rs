//! The playlist in the application (the `P`, `a` and `A` keys): opening,
//! adding, pinning fonts, saving, and guarding unsaved edits.

use crate::app;
use crate::app::{
    ask, App, AppView, Discard, DiscardView, Effect, EffectView, Panel, PlaySource, Prompt,
    PromptKind, PromptView, Source, SourceView, World, WorldView,
};
use crate::ascii;
use crate::ascii::dec_text;
use crate::browser::BrowserView;
use crate::conf;
use crate::cursor;
use crate::history;
use crate::host;
use crate::host::{Host, HostView};
use crate::paths;
use crate::paths::join_path;
use crate::playlist;
use crate::playlist::{is_playlist_name, ItemView, Playlist, PlaylistView};
use crate::raw;
use crate::raw::shown_text;
use crate::vfs;
use crate::vfs::{clone_loc, Disk, FileKind, LocView};
use vstd::prelude::*;
use vstd::string::*;

verus! {

// --- opening and leaving ----------------------------------------------------

/// A number of things.
pub open spec fn counted(n: nat, what: Seq<char>) -> Seq<char> {
    ascii::dec(n) + seq![' '] + what + if n == 1 {
        seq![]
    } else {
        seq!['s']
    }
}

fn counted_text(n: usize, what: &str) -> (r: String)
    ensures
        r@ == counted(n as nat, what@),
{
    let mut s = dec_text(n as u64);
    s.push(' ');
    s.append(what);
    if n != 1 {
        s.push('s');
    }
    assert(s@ =~= counted(n as nat, what@));
    s
}

/// What is said of a playlist that was read.
pub open spec fn loaded_message(list: PlaylistView, ignored: nat) -> Seq<char> {
    "Playlist: "@ + list.name() + " · "@ + counted(list.items.len(), "item"@) + if ignored > 0 {
        " · "@ + counted(ignored, "line"@) + " ignored"@
    } else {
        seq![]
    }
}

/// What was read, as text.
pub open spec fn read_text(r: Result<String, String>) -> Result<Seq<char>, Seq<char>> {
    match r {
        Ok(b) => Ok(b@),
        Err(e) => Err(e@),
    }
}

/// The document in a playlist file at `path`.
pub open spec fn doc_at(path: Seq<char>, body: Seq<char>, w: WorldView) -> playlist::DocView {
    playlist::parsed(
        body,
        playlist::Place {
            base: vfs::dir_of(path),
            home: w.host.home_text(),
            disk: w.disk,
        },
    )
}

impl AppView {
    /// With the playlist replaced by the one read from `path`.
    pub open spec fn with_list(self, path: Seq<char>, d: playlist::DocView) -> AppView {
        let list = playlist::loaded(path, d);
        AppView {
            playlist: list,
            // The queue's item identities belonged to the list just replaced.
            play_source: if self.play_source is Playlist {
                SourceView::Directory
            } else {
                self.play_source
            },
            message: Some(loaded_message(list, d.ignored as nat)),
            ..self
        }
    }

    /// With the playlist's overlay open, keeping the message that the overlay
    /// would replace with its own.
    pub open spec fn list_shown(self, disk: Map<Seq<char>, FileKind>) -> AppView {
        let o = self.opened(Source::Playlist, disk);
        AppView {
            message: match o.message {
                Some(m) => Some(m),
                None => self.message,
            },
            ..o
        }
    }

    /// With the playlist named on the command line open, or the reason why not
    /// before what the banner held already.
    pub open spec fn launched_with(
        self,
        path: Seq<char>,
        body: Result<Seq<char>, Seq<char>>,
        w: WorldView,
    ) -> AppView {
        match body {
            Ok(b) => self.with_list(path, doc_at(path, b, w)).list_shown(w.disk),
            Err(e) => self.saying(
                "Cannot read "@ + raw::shown(path) + ": "@ + e + (match self.message {
                    Some(m) => "; "@ + m,
                    None => seq![],
                }),
            ),
        }
    }

    /// With the playlist of the last session open, quietly. A file that has
    /// become unreadable is simply not reopened.
    pub open spec fn relaunched_with(
        self,
        path: Seq<char>,
        body: Result<Seq<char>, Seq<char>>,
        w: WorldView,
    ) -> AppView {
        match body {
            Ok(b) => AppView {
                message: self.message,
                ..self.with_list(path, doc_at(path, b, w))
            },
            Err(_) => self,
        }
    }

    /// With the playlist that was asked for open and shown, or the reason why
    /// not.
    pub open spec fn opened_with(
        self,
        path: Seq<char>,
        body: Result<Seq<char>, Seq<char>>,
        w: WorldView,
    ) -> AppView {
        match body {
            Ok(b) => self.with_list(path, doc_at(path, b, w)).list_shown(w.disk),
            Err(e) => self.saying("Cannot read "@ + raw::shown(path) + ": "@ + e),
        }
    }

    pub open spec fn opened_effects(self, body: Result<Seq<char>, Seq<char>>) -> Seq<EffectView> {
        match body {
            Ok(_) => self.save_effects(),
            Err(_) => seq![],
        }
    }

    /// With the program about to quit, or a question in its place.
    pub open spec fn quitting(self) -> AppView {
        if self.playlist.dirty && self.discard_armed != Some(DiscardView::Quit) {
            AppView {
                discard_armed: Some(DiscardView::Quit),
                message: Some(
                    "The playlist has unsaved changes — q again to quit without saving (P, then w saves)"@,
                ),
                ..self
            }
        } else {
            AppView { quit: true, ..self }
        }
    }

    /// With the question whether to discard unsaved changes taken back.
    pub open spec fn disarmed(self) -> AppView {
        if self.discard_armed is Some {
            AppView { discard_armed: None, message: None, ..self }
        } else {
            self
        }
    }
}

impl App {
    /// Read the playlist at `path`, whose file holds `body`, into the app,
    /// replacing the open one. Used at launch; [`App::open_playlist`] is the
    /// interactive route, which guards unsaved edits first.
    pub fn load_playlist(&mut self, path: &str, body: Result<String, String>, world: &World) -> (r:
        Result<(), String>)
        requires
            old(self)@.wf(),
        ensures
            final(self)@.wf(),
            ({
                let p = host::absolute_text(path@, world@.host.cwd);
                match body {
                    Ok(b) => r is Ok && final(self)@ == old(self)@.with_list(
                        p,
                        doc_at(p, b@, world@),
                    ),
                    Err(e) => final(self)@ == old(self)@ && (r matches Err(m) && m@
                        == "Cannot read "@ + raw::shown(p) + ": "@ + e@),
                }
            }),
    {
        let (list, ignored): (Playlist, usize) = match Playlist::load(
            path,
            body,
            &world.host,
            &world.disk,
        ) {
            Ok(x) => x,
            Err(e) => {
                return Err(e);
            },
        };
        let mut m = "Playlist: ".to_owned();
        let name = list.name();
        m.append(name.as_str());
        m.append(" · ");
        let n = counted_text(list.len(), "item");
        m.append(n.as_str());
        if ignored > 0 {
            m.append(" · ");
            let k = counted_text(ignored, "line");
            m.append(k.as_str());
            m.append(" ignored");
        }
        assert(m@ =~= loaded_message(list@, ignored as nat));
        self.playlist = list;
        match &self.play_source {
            PlaySource::Playlist { .. } => {
                self.play_source = PlaySource::Directory;
            },
            _ => {},
        }
        self.message = Some(m);
        Ok(())
    }

    /// The playlist file that [`App::open_playlist`] asked for was read.
    pub fn playlist_read(&mut self, path: &str, body: Result<String, String>, world: &World) -> (r:
        Vec<Effect>)
        requires
            old(self)@.wf(),
        ensures
            final(self)@.wf(),
            final(self)@ == old(self)@.opened_with(
                host::absolute_text(path@, world@.host.cwd),
                read_text(body),
                world@,
            ),
            app::effects(r@) == old(self)@.opened_effects(read_text(body)),
    {
        let mut out: Vec<Effect> = Vec::new();
        match self.load_playlist(path, body, world) {
            Ok(()) => {
                self.save_into(&mut out);
                self.show_list(&world.disk);
            },
            Err(e) => {
                self.message = Some(e);
            },
        }
        out
    }

    /// At launch, open the playlist named on the command line, shown in its
    /// overlay. It does not play.
    pub fn launch_playlist(&mut self, path: &str, body: Result<String, String>, world: &World)
        requires
            old(self)@.wf(),
        ensures
            final(self)@.wf(),
            final(self)@ == old(self)@.launched_with(
                host::absolute_text(path@, world@.host.cwd),
                read_text(body),
                world@,
            ),
    {
        match self.load_playlist(path, body, world) {
            Ok(()) => self.show_list(&world.disk),
            Err(e) => {
                let mut m = e;
                match &self.message {
                    Some(old) => {
                        let mut t = "; ".to_owned();
                        t.append(old.as_str());
                        m.append(t.as_str());
                    },
                    None => {
                        assert(m@ + Seq::<char>::empty() =~= m@);
                    },
                }
                self.message = Some(m);
            },
        }
    }

    /// At launch, open the playlist that was open at the end of the last
    /// session, quietly.
    pub fn reopen_playlist(&mut self, path: &str, body: Result<String, String>, world: &World)
        requires
            old(self)@.wf(),
        ensures
            final(self)@.wf(),
            final(self)@ == old(self)@.relaunched_with(
                host::absolute_text(path@, world@.host.cwd),
                read_text(body),
                world@,
            ),
    {
        let banner = match &self.message {
            Some(m) => Some(m.clone()),
            None => None,
        };
        match self.load_playlist(path, body, world) {
            Ok(()) => self.set_banner(banner),
            Err(_) => {},
        }
    }

    fn set_banner(&mut self, banner: Option<String>)
        ensures
            final(self)@ == (AppView { message: history::opt_text(banner), ..old(self)@ }),
    {
        self.message = banner;
    }

    fn show_list(&mut self, disk: &Disk)
        requires
            old(self)@.wf(),
        ensures
            final(self)@.wf(),
            final(self)@ == old(self)@.list_shown(disk@),
    {
        let kept = match &self.message {
            Some(m) => Some(m.clone()),
            None => None,
        };
        self.playlist_open(disk);
        if self.message.is_none() {
            self.message = kept;
        }
    }

    /// Quit, unless that would lose playlist edits: then the first `q` only
    /// warns, and a second one in a row quits.
    pub fn request_quit(&mut self)
        ensures
            old(self)@.wf() ==> final(self)@.wf(),
            final(self)@ == old(self)@.quitting(),
    {
        let armed = match &self.discard_armed {
            Some(Discard::Quit) => true,
            _ => false,
        };
        if self.playlist.is_dirty() && !armed {
            self.discard_armed = Some(Discard::Quit);
            self.say(
                "The playlist has unsaved changes — q again to quit without saving (P, then w saves)",
            );
        } else {
            self.quit = true;
        }
    }

    /// Take back a pending "discard unsaved changes?" question.
    pub fn disarm_discard(&mut self)
        ensures
            final(self)@ == old(self)@.disarmed(),
    {
        if self.discard_armed.is_some() {
            self.discard_armed = None;
            self.message = None;
        }
    }
}

// --- editing ----------------------------------------------------------------

impl AppView {
    /// The font to pin: none, or the loaded one. `None` when it is asked for
    /// and nothing is loaded.
    pub open spec fn pinned(self, pin: bool) -> Option<Option<LocView>> {
        match (pin, self.soundfont) {
            (false, _) => Some(None),
            (true, Some(sf)) => Some(Some(sf)),
            (true, None) => None,
        }
    }

    /// The MIDI file at the cursor, when that is what is there.
    pub open spec fn addable(self) -> Option<crate::browser::EntryView> {
        match (self.active, self.midi.selected()) {
            (Panel::Midi, Some(e)) => if !e.is_dir && !playlist::has_ext(
                e.name,
                playlist::playlist_exts(),
            ) {
                Some(e)
            } else {
                None
            },
            _ => None,
        }
    }

    /// With the MIDI file under the cursor appended to the playlist.
    pub open spec fn added(self, with_font: bool, host: HostView) -> AppView {
        match (self.addable(), self.pinned(with_font)) {
            (None, _) => self.saying(
                "Put the cursor on a MIDI file in the left panel to add it"@,
            ),
            (Some(_), None) => self.saying(
                "No SoundFont loaded — A adds the track with the loaded SoundFont"@,
            ),
            (Some(e), Some(font)) => AppView {
                message: Some(
                    "Added to the playlist ("@ + ascii::dec(self.playlist.items.len() + 1)
                        + "): "@ + e.name + match font {
                        Some(sf) => " + "@ + sf.file_name(),
                        None => seq![],
                    },
                ),
                playlist: PlaylistView {
                    dirty: true,
                    ..self.playlist.with_item(
                        ItemView {
                            midi: playlist::absolute_view(e.loc, host.cwd),
                            soundfont: match font {
                                Some(l) => Some(playlist::absolute_view(l, host.cwd)),
                                None => None,
                            },
                            extra: seq![],
                        },
                    )
                },
                midi: BrowserView {
                    at: cursor::down(self.midi.at, 1, self.midi.entries.len() as int),
                    ..self.midi
                },
                ..self
            },
        }
    }

    /// The playlist item behind the selected row of its overlay.
    pub open spec fn picked_item(self) -> Option<usize> {
        match self.overlay {
            Some(o) => match (o.source, o.selected()) {
                (Source::Playlist, Some(r)) => if r.idxs.len() > 0 {
                    Some(r.idxs[0])
                } else {
                    None
                },
                _ => None,
            },
            None => None,
        }
    }

    /// With the loaded font pinned to the selected item, or the item unpinned.
    pub open spec fn font_set(
        self,
        pin: bool,
        host: HostView,
        disk: Map<Seq<char>, FileKind>,
    ) -> AppView {
        match (self.picked_item(), self.pinned(pin)) {
            (None, _) => self,
            (Some(_), None) => self.saying("No SoundFont loaded to pin to the item"@),
            (Some(i), Some(font)) => (AppView {
                playlist: playlist::with_font(
                    self.playlist,
                    i as int,
                    match font {
                        Some(l) => Some(playlist::absolute_view(l, host.cwd)),
                        None => None,
                    },
                ),
                ..self
            }).rebuilt(true, disk),
        }
    }
}

impl App {
    /// Append the MIDI file under the cursor to the playlist, without a
    /// SoundFont of its own or (`with_font`) pinned to the loaded one. The
    /// cursor moves on, so a run of tracks is added by pressing the key again.
    pub fn playlist_add(&mut self, with_font: bool, host: &Host)
        requires
            old(self)@.wf(),
            old(self)@.playlist.next_id < u64::MAX,
        ensures
            final(self)@.wf(),
            final(self)@ == old(self)@.added(with_font, host@),
    {
        let (name, loc) = match (self.active, self.midi.selected()) {
            (Panel::Midi, Some(e)) => if !e.is_dir && !is_playlist_name(e.name.as_str()) {
                (e.name.clone(), e.loc.clone())
            } else {
                self.say("Put the cursor on a MIDI file in the left panel to add it");
                return;
            },
            _ => {
                self.say("Put the cursor on a MIDI file in the left panel to add it");
                return;
            },
        };
        let font = if with_font {
            match clone_loc(&self.soundfont) {
                Some(sf) => Some(sf),
                None => {
                    self.say("No SoundFont loaded — A adds the track with the loaded SoundFont");
                    return;
                },
            }
        } else {
            None
        };
        let ghost fv = vfs::opt_view(font);
        let mut tail = String::new();
        match &font {
            Some(sf) => {
                tail.append(" + ");
                let f = sf.file_name();
                tail.append(f.as_str());
            },
            None => {},
        }
        assert(tail@ =~= match fv {
            Some(sf) => " + "@ + sf.file_name(),
            None => seq![],
        });
        self.playlist.push(loc, font, host);
        let mut m = "Added to the playlist (".to_owned();
        let n = dec_text(self.playlist.len() as u64);
        m.append(n.as_str());
        m.append("): ");
        m.append(name.as_str());
        m.append(tail.as_str());
        self.message = Some(m);
        self.midi.move_down(1);
    }

    /// `s` / `x` in the playlist overlay: pin the loaded SoundFont to the
    /// selected item, or (`pin` false) unpin it so it plays through the user's
    /// font.
    pub fn overlay_set_font(&mut self, pin: bool, host: &Host, disk: &Disk)
        requires
            old(self)@.wf(),
        ensures
            final(self)@.wf(),
            final(self)@ == old(self)@.font_set(pin, host@, disk@),
    {
        let idx: usize = match &self.overlay {
            Some(o) => if o.source == Source::Playlist {
                match o.selected() {
                    Some(r) => if r.idxs.len() > 0 {
                        r.idxs[0]
                    } else {
                        return;
                    },
                    None => {
                        return;
                    },
                }
            } else {
                return;
            },
            None => {
                return;
            },
        };
        let font = if pin {
            match clone_loc(&self.soundfont) {
                Some(sf) => Some(sf),
                None => {
                    self.say("No SoundFont loaded to pin to the item");
                    return;
                },
            }
        } else {
            None
        };
        self.playlist.set_font(idx, font, host);
        self.overlay_rebuild(true, disk);
    }
}

// --- saving -----------------------------------------------------------------

/// The work of writing the playlist `list` to `path`.
pub open spec fn write_effect(
    list: PlaylistView,
    path: Seq<char>,
    cwd: Option<Seq<char>>,
    from_prompt: bool,
) -> EffectView {
    let p = host::absolute_text(path, cwd);
    EffectView::WritePlaylist {
        path: p,
        body: conf::unlines(playlist::doc_lines(list.doc(), vfs::dir_of(p))),
        from_prompt,
    }
}

impl AppView {
    /// True when saving has to ask for a file first.
    pub open spec fn asks_where(self, save_as: bool) -> bool {
        self.overlay_source() == Some(Source::Playlist) && (save_as || self.playlist.path is None)
    }

    /// With the playlist about to be saved: with the prompt open, if a file has
    /// to be asked for.
    pub open spec fn saving(self, save_as: bool) -> AppView {
        if self.asks_where(save_as) {
            AppView {
                prompt: Some(
                    PromptView {
                        kind: PromptKind::SavePlaylist,
                        buf: match self.playlist.path {
                            Some(p) => raw::shown(p),
                            None => raw::shown(
                                paths::join(self.midi.dir.fs_dir(), "playlist.m3u"@),
                            ),
                        },
                        confirm: None,
                    },
                ),
                ..self
            }
        } else {
            self
        }
    }

    pub open spec fn saving_effects(self, save_as: bool, cwd: Option<Seq<char>>) -> Seq<
        EffectView,
    > {
        if self.overlay_source() == Some(Source::Playlist) && !self.asks_where(save_as) {
            seq![write_effect(self.playlist, self.playlist.path->0, cwd, false)]
        } else {
            seq![]
        }
    }

    /// With the playlist saved to `path`. A failed write leaves the prompt open
    /// to fix the path.
    pub open spec fn written(
        self,
        path: Seq<char>,
        error: Option<Seq<char>>,
        from_prompt: bool,
    ) -> AppView {
        match error {
            None => AppView {
                playlist: PlaylistView { path: Some(path), dirty: false, ..self.playlist },
                message: Some(
                    "Saved "@ + raw::shown(path) + " ("@ + counted(
                        self.playlist.items.len(),
                        "item"@,
                    ) + ")"@,
                ),
                prompt: if from_prompt {
                    None
                } else {
                    self.prompt
                },
                ..self
            },
            Some(e) => self.saying("Cannot write "@ + raw::shown(path) + ": "@ + e),
        }
    }
}

impl App {
    /// `w` / `W` in the playlist overlay: save to the playlist's own file, or
    /// ask for one (always, for `W`; for `w`, when the list is new).
    pub fn overlay_save(&mut self, save_as: bool, host: &Host) -> (r: Vec<Effect>)
        requires
            old(self)@.wf(),
        ensures
            final(self)@.wf(),
            final(self)@ == old(self)@.saving(save_as),
            app::effects(r@) == old(self)@.saving_effects(save_as, host@.cwd),
    {
        let mut out: Vec<Effect> = Vec::new();
        match self.overlay_source() {
            Some(Source::Playlist) => {},
            _ => {
                return out;
            },
        }
        let own = match self.playlist.path() {
            Some(p) => Some(p.clone()),
            None => None,
        };
        match own {
            Some(p) => if save_as {
                let buf = shown_text(p.as_str());
                self.prompt = Some(Prompt { kind: PromptKind::SavePlaylist, buf, confirm: None });
            } else {
                self.ask_to_write(p.as_str(), host, false, &mut out);
            },
            None => {
                let d = self.midi.fs_dir();
                let p = join_path(d.as_str(), "playlist.m3u");
                let buf = shown_text(p.as_str());
                self.prompt = Some(Prompt { kind: PromptKind::SavePlaylist, buf, confirm: None });
            },
        }
        out
    }

    pub(crate) fn ask_to_write(
        &self,
        path: &str,
        host: &Host,
        from_prompt: bool,
        out: &mut Vec<Effect>,
    )
        ensures
            app::effects(final(out)@) == app::effects(old(out)@).push(
                write_effect(self@.playlist, path@, host@.cwd, from_prompt),
            ),
    {
        let w = self.playlist.save_as(path, host);
        ask(out, Effect::WritePlaylist { path: w.path, body: w.body, from_prompt });
    }

    /// The playlist was written to `path`, or could not be for the reason
    /// given.
    pub fn playlist_written(
        &mut self,
        path: String,
        error: Option<String>,
        from_prompt: bool,
    ) -> (r: Vec<Effect>)
        requires
            old(self)@.wf(),
        ensures
            final(self)@.wf(),
            final(self)@ == old(self)@.written(path@, history::opt_text(error), from_prompt),
            app::effects(r@) == if error is None {
                old(self)@.save_effects()
            } else {
                seq![]
            },
    {
        let mut out: Vec<Effect> = Vec::new();
        match error {
            None => {
                let mut m = "Saved ".to_owned();
                let shown = shown_text(path.as_str());
                m.append(shown.as_str());
                m.append(" (");
                let n = counted_text(self.playlist.len(), "item");
                m.append(n.as_str());
                m.append(")");
                self.playlist.saved(path);
                self.message = Some(m);
                self.save_into(&mut out);
                if from_prompt {
                    self.prompt = None;
                }
            },
            Some(e) => {
                let mut m = "Cannot write ".to_owned();
                let shown = shown_text(path.as_str());
                m.append(shown.as_str());
                m.append(": ");
                m.append(e.as_str());
                self.message = Some(m);
            },
        }
        out
    }
}

} // verus!
