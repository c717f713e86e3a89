//! The application, with a disk and a synth that stand on paper.

use voxfont::app::{
    App, Effect, Overlay, Panel, Pending, PlaySource, PlayState, PromptKind, Source, World,
    MIN_LISTEN_NS,
};
use voxfont::history::View;
use voxfont::host::Host;
use voxfont::keys::{Code, Key};
use voxfont::midi::{Length, MidiInfo};
use voxfont::paths::{file_name_of, join_path, parent_of, same_path};
use voxfont::player::bar_beat_at;
use voxfont::prompt::delete_path_component;
use voxfont::queue::{Origin, Step};
use voxfont::raw::{join_pieces, Piece};
use voxfont::vfs::{read_dir, DirChild, Disk, DiskEntry, FileKind, Location, ZipCache};

fn fs(p: &str) -> Location {
    Location::Fs(p.to_string())
}

fn loc(p: &str) -> Option<Location> {
    Some(fs(p))
}

fn host() -> Host {
    Host { home: Some("/home/me".to_string()), xdg_config: None, cwd: Some("/work".to_string()) }
}

/// What is on a disk.
struct Tree {
    paths: Vec<(String, FileKind)>,
    bodies: Vec<(String, String)>,
    zips: ZipCache,
}

impl Tree {
    fn put(&mut self, path: &str, kind: FileKind) {
        self.remove(path);
        self.paths.push((path.to_string(), kind));
    }

    fn remove(&mut self, path: &str) {
        self.paths.retain(|(p, _)| p != path);
        self.bodies.retain(|(p, _)| p != path);
    }

    fn write(&mut self, path: &str, body: &str) {
        self.put(path, FileKind::File);
        self.bodies.push((path.to_string(), body.to_string()));
    }

    fn body(&self, path: &str) -> Option<String> {
        self.bodies.iter().find(|(p, _)| p == path).map(|(_, b)| b.clone())
    }

    fn disk(&self) -> Disk {
        let mut d = Disk::new();
        for (p, k) in &self.paths {
            d.put(p.clone(), *k);
        }
        d
    }

    fn children(&self, dir: &Location, allow: bool) -> Vec<DirChild> {
        let here: Vec<DiskEntry> = match dir {
            Location::Fs(d) => self
                .paths
                .iter()
                .filter(|(p, _)| parent_of(p).map_or(false, |q| same_path(&q, d)))
                .map(|(p, k)| DiskEntry {
                    name: file_name_of(p).unwrap(),
                    is_dir: *k == FileKind::Dir,
                    size: 1,
                    length: None,
                })
                .collect(),
            Location::Zip { .. } => Vec::new(),
        };
        read_dir(dir, &here, &self.zips, allow)
    }
}

/// An application, and what is around it.
struct Rig {
    app: App,
    tree: Tree,
    ns: u64,
    unix: u64,
    /// Whether the synth can load and play anything.
    works: bool,
    has_font: bool,
    position: Option<(i32, i32)>,
    /// What was asked of the synth and of the files.
    log: Vec<String>,
}

impl Rig {
    /// An app rooted at two empty directories, whose synth loads nothing.
    fn new() -> Rig {
        let tree = Tree { paths: Vec::new(), bodies: Vec::new(), zips: ZipCache::new() };
        Rig {
            app: App::new(fs("/m"), fs("/s"), &vec![], &vec![], None),
            tree,
            ns: 0,
            unix: 1_000,
            works: false,
            has_font: false,
            position: None,
            log: Vec::new(),
        }
    }

    fn file(&mut self, path: &str) {
        self.tree.put(path, FileKind::File);
    }

    fn world(&self) -> World {
        World { ns: self.ns, unix: self.unix, disk: self.tree.disk(), host: host() }
    }

    fn allow(p: Panel) -> bool {
        p == Panel::Midi
    }

    fn panel(&mut self, p: Panel) -> &mut voxfont::browser::Browser {
        match p {
            Panel::Midi => &mut self.app.midi,
            Panel::Sf2 => &mut self.app.sf2,
        }
    }

    fn kids(&self, at: Option<Location>, p: Panel) -> Vec<DirChild> {
        match at {
            Some(l) => self.tree.children(&l, Rig::allow(p)),
            None => Vec::new(),
        }
    }

    fn refresh(&mut self) {
        self.run(vec![Effect::Refresh(Panel::Midi), Effect::Refresh(Panel::Sf2)]);
    }

    fn run(&mut self, fx: Vec<Effect>) {
        for e in fx {
            match e {
                Effect::Reveal { panel, loc } => {
                    let at = self.panel(panel).reveal_target(&loc);
                    let kids = self.kids(at, panel);
                    self.panel(panel).reveal_loc(&loc, &kids);
                }
                Effect::EnterDir(p) => {
                    let at = self.panel(p).enter_target();
                    let kids = self.kids(at, p);
                    self.panel(p).enter_dir(&kids);
                }
                Effect::GoUp(p) => {
                    let at = self.panel(p).up_target();
                    let kids = self.kids(at, p);
                    self.panel(p).go_up(&kids);
                }
                Effect::Refresh(p) => {
                    let at = self.panel(p).location();
                    let kids = self.kids(Some(at), p);
                    self.panel(p).refresh(&kids);
                }
                Effect::SetDir { panel, dir } => {
                    let kids = self.kids(Some(Location::Fs(dir.clone())), panel);
                    self.panel(panel).set_dir(dir, &kids);
                }
                Effect::ClearFilter(p) => self.app.clear_filter(p),
                Effect::LoadFont { loc, remember, adopt } => {
                    let w = self.world();
                    if self.works && loc.is_present(&w.disk) {
                        self.has_font = true;
                        let fx = self.app.font_loaded(loc, remember, adopt, &w);
                        self.run(fx);
                    } else {
                        self.app.failed("cannot load SoundFont".to_string());
                    }
                }
                Effect::Play { loc, count } => {
                    let w = self.world();
                    if !self.has_font {
                        self.app.no_font();
                    } else if !loc.is_present(&w.disk) {
                        self.app.failed("cannot play".to_string());
                    } else {
                        self.log.push(format!("play {}", loc.file_name()));
                        let fx = self.app.track_started(loc, count, None, &w);
                        self.run(fx);
                    }
                }
                Effect::OpenPlaylist { path } => {
                    let body = self.tree.body(&path).ok_or("cannot read".to_string());
                    let w = self.world();
                    let fx = self.app.playlist_read(&path, body, &w);
                    self.run(fx);
                }
                Effect::WritePlaylist { path, body, from_prompt } => {
                    self.tree.write(&path, &body);
                    let fx = self.app.playlist_written(path, None, from_prompt);
                    self.run(fx);
                }
                other => self.log.push(format!("{other:?}")),
            }
        }
    }

    fn key(&mut self, code: Code) {
        self.press(Key { code, ctrl: false, alt: false, shift: false });
    }

    fn press(&mut self, key: Key) {
        let w = self.world();
        let fx = self.app.handle_key(key, &w, self.position);
        self.run(fx);
    }

    fn keys(&mut self, text: &str) {
        for c in text.chars() {
            self.key(Code::Char(c));
        }
    }

    fn tick(&mut self, finished: bool) {
        let siblings = self.kids(self.app.queue_directory(), Panel::Midi);
        let w = self.world();
        let fx = self.app.tick(finished, &siblings, &w);
        self.run(fx);
    }

    fn ended(&mut self, cur: Location) {
        let siblings = self.kids(self.app.queue_directory(), Panel::Midi);
        let w = self.world();
        let fx = self.app.track_ended(cur, &siblings, &w);
        self.run(fx);
    }

    /// What follows `cur`.
    fn next(&self, cur: &Location) -> Option<Step> {
        let siblings = self.kids(cur.parent(), Panel::Midi);
        self.app.next_in_source(cur, &siblings, &self.tree.disk())
    }

    fn next_fav(&self, key: &(Location, Location), idx: usize) -> Option<Step> {
        self.app.next_favourite(&key.0, &key.1, idx, &self.tree.disk())
    }

    fn next_item(&self, id: u64, idx: usize) -> Option<Step> {
        self.app.next_playlist_item(id, idx, &self.tree.disk())
    }

    fn step(&mut self, s: Step) {
        let fx = self.app.play_step(s);
        self.run(fx);
    }

    fn open(&mut self, s: Source) {
        let d = self.tree.disk();
        match s {
            Source::History => self.app.history_open(&d),
            Source::Favourites => self.app.favourites_open(&d),
            Source::Playlist => self.app.playlist_open(&d),
        }
    }

    fn activate_row(&mut self) {
        let d = self.tree.disk();
        let fx = self.app.overlay_activate(&d);
        self.run(fx);
    }

    fn activate(&mut self) {
        let fx = self.app.activate_selection(&host());
        self.run(fx);
    }

    fn play_fav(&mut self, i: usize) {
        let d = self.tree.disk();
        let fx = self.app.play_favourite_at(i, &d);
        self.run(fx);
    }

    fn play_item(&mut self, i: usize) {
        let d = self.tree.disk();
        let fx = self.app.play_playlist_at(i, &d);
        self.run(fx);
    }

    fn commit(&mut self) {
        let w = self.world();
        let fx = self.app.commit_history(&w);
        self.run(fx);
    }

    fn submit(&mut self) {
        let w = self.world();
        let fx = self.app.prompt_submit(&w);
        self.run(fx);
    }

    fn save(&mut self, save_as: bool) {
        let fx = self.app.overlay_save(save_as, &host());
        self.run(fx);
    }

    fn message(&self) -> String {
        self.app.message.clone().unwrap_or_default()
    }

    fn ov(&self) -> &Overlay {
        self.app.overlay.as_ref().expect("overlay open")
    }

    fn under(&self, p: Panel) -> Option<Location> {
        let b = if p == Panel::Midi { &self.app.midi } else { &self.app.sf2 };
        b.selected().map(|e| e.loc.clone())
    }

    /// The (track, font) key of the favourite at `idx`.
    fn fav(&self, idx: usize) -> (Location, Location) {
        let f = self.app.favs.get(idx).expect("a favourite");
        (f.midi.clone(), f.soundfont.clone())
    }

    fn id(&self, idx: usize) -> u64 {
        self.app.playlist.id_at(idx).unwrap()
    }

    fn add(&mut self, midi: Location, soundfont: Option<Location>) {
        self.app.playlist.push(midi, soundfont, &host());
    }
}

/// A rig with `n` tracks (a.mid, b.mid, …) and one SoundFont on disk, each
/// track starred against that font in name order.
fn starred_rig(n: usize) -> (Rig, Location) {
    let mut r = Rig::new();
    r.file("/s/piano.sf2");
    let font = fs("/s/piano.sf2");
    for i in 0..n {
        let path = format!("/m/{}.mid", (b'a' + i as u8) as char);
        r.file(&path);
        r.app.favs.toggle(fs(&path), font.clone(), 100 + i as u64);
    }
    r.refresh();
    (r, font)
}

/// A rig whose playlist holds `a.mid` pinned to `one.sf2`, then `b.mid` and
/// `c.mid` with no font, all on disk, plus a second font `two.sf2`.
fn list_rig() -> Rig {
    let mut r = Rig::new();
    for n in ["a.mid", "b.mid", "c.mid"] {
        r.file(&join_path("/m", n));
    }
    for n in ["one.sf2", "two.sf2"] {
        r.file(&join_path("/s", n));
    }
    r.add(fs("/m/a.mid"), loc("/s/one.sf2"));
    r.add(fs("/m/b.mid"), None);
    r.add(fs("/m/c.mid"), None);
    r.refresh();
    r
}

/// A rig whose track and font sit one directory below where the panels start,
/// so following them means the panels change directory.
fn nested_rig() -> (Rig, Location, Location) {
    let mut r = Rig::new();
    r.tree.put("/m/sub", FileKind::Dir);
    r.tree.put("/s/fonts", FileKind::Dir);
    r.file("/m/sub/song.mid");
    r.file("/m/sub/next.mid");
    r.file("/s/fonts/piano.sf2");
    r.refresh();
    (r, fs("/m/sub/song.mid"), fs("/s/fonts/piano.sf2"))
}

// --- small things -----------------------------------------------------------

#[test]
fn delete_path_component_steps_up() {
    assert_eq!(delete_path_component("/a/b/c"), "/a/b/");
    assert_eq!(delete_path_component("/a/b/"), "/a/");
    assert_eq!(delete_path_component("/a/"), "/");
    assert_eq!(delete_path_component("/"), "");
    assert_eq!(delete_path_component("relative"), "");
}

fn signature(division: u16, ts_num: u8, ts_den: u8) -> MidiInfo {
    MidiInfo { division, length: Length { num: 0, den: 1 }, ts_num, ts_den }
}

#[test]
fn bar_beat_4_4() {
    // 480 PPQ, 4/4: ticks/beat=480, ticks/bar=1920.
    let info = signature(480, 4, 4);
    assert_eq!(bar_beat_at(0, &info), Some((1, 1)));
    assert_eq!(bar_beat_at(480, &info), Some((1, 2)));
    assert_eq!(bar_beat_at(1920, &info), Some((2, 1)));
    assert_eq!(bar_beat_at(1920 + 960, &info), Some((2, 3)));
}

#[test]
fn bar_beat_3_4_and_smpte() {
    let info = signature(480, 3, 4);
    // 3/4: a bar is 3 beats = 1440 ticks.
    assert_eq!(bar_beat_at(1440, &info), Some((2, 1)));
    assert_eq!(bar_beat_at(480, &info), Some((1, 2)));

    let smpte = signature(0, 3, 4);
    assert_eq!(bar_beat_at(100, &smpte), None);
}

// --- the history ------------------------------------------------------------

#[test]
fn history_waits_until_a_track_has_actually_been_heard() {
    let mut r = Rig::new();
    r.app.pending = Some(Pending {
        midi: loc("/m/a.mid"),
        soundfont: loc("/s/one.sf2"),
        at_ns: 0,
        count: true,
    });

    // Skipped through after a couple of seconds: not worth remembering.
    r.app.heard.counted_ns = 2_000_000_000;
    r.commit();
    assert!(r.app.history.is_empty());

    // Listened to past the threshold: remembered, and only once.
    r.app.heard.counted_ns = MIN_LISTEN_NS + 500_000_000;
    r.commit();
    r.commit();
    assert_eq!(r.app.history.len(), 1);
    assert!(r.app.pending.is_none());
}

#[test]
fn history_overlay_lists_filters_and_forgets() {
    let mut r = Rig::new();
    r.app.history.record(loc("/m/a.mid"), loc("/s/one.sf2"), 100, true);
    r.app.history.record(loc("/m/b.mid"), loc("/s/one.sf2"), 200, true);
    let d = r.tree.disk();

    r.open(Source::History);
    assert_eq!(r.ov().rows.len(), 2);
    assert_eq!(r.ov().view, View::Pairs);
    // Newest first, cursor on the top row.
    assert_eq!(r.ov().selected().unwrap().midi, loc("/m/b.mid"));

    // Tab walks the three views of the same log.
    r.app.overlay_cycle_view(&d);
    assert_eq!(r.ov().view, View::Tracks);
    assert_eq!(r.ov().rows.len(), 2);
    r.app.overlay_cycle_view(&d);
    assert_eq!(r.ov().view, View::Fonts);
    assert_eq!(r.ov().rows.len(), 1, "both plays used the same SoundFont");
    r.app.overlay_cycle_view(&d);

    // `/` narrows the list; Esc restores it.
    r.app.overlay_start_filter(&d);
    r.app.overlay_filter_push('a', &d);
    assert_eq!(r.ov().rows.len(), 1);
    r.app.overlay_filter_cancel(&d);
    assert_eq!(r.ov().rows.len(), 2);

    // `d` forgets the selected row and keeps the overlay usable.
    let fx = r.app.overlay_delete(&d);
    r.run(fx);
    assert_eq!(r.app.history.len(), 1);
    assert_eq!(r.ov().rows.len(), 1);

    // `D` asks once, then erases.
    let fx = r.app.history_clear(&d);
    r.run(fx);
    assert_eq!(r.app.history.len(), 1, "the first D only asks");
    let fx = r.app.history_clear(&d);
    r.run(fx);
    assert!(r.app.history.is_empty());

    r.app.overlay_close();
    assert!(r.app.overlay.is_none());
}

#[test]
fn restoring_a_vanished_file_reports_instead_of_playing() {
    let mut r = Rig::new();
    r.app.history.record(loc("/no/such/track.mid"), None, 100, true);
    r.open(Source::History);
    r.activate_row();

    assert!(r.app.overlay.is_some(), "the overlay stays open on activation");
    assert!(r.message().contains("gone"));
    assert!(r.app.now_playing.is_none());
    assert!(r.app.queue_position().is_none(), "a failed start is not the queue");
}

#[test]
fn restoring_an_entry_moves_the_panels_onto_it() {
    let mut r = Rig::new();
    // A zip holding the track, plus a loose one beside it.
    r.file("/m/songs.zip");
    r.tree.zips.add_archive("/m/songs.zip", &vec!["classics/canyon.mid".to_string()]);
    r.file("/m/plain.mid");
    r.file("/s/piano.sf2");
    r.refresh();

    let zip = |inner: &str| Location::Zip {
        archive: "/m/songs.zip".to_string(),
        inner: inner.to_string(),
    };
    let member = zip("classics/canyon.mid");
    r.app.history.record(Some(member.clone()), loc("/s/piano.sf2"), 100, true);
    r.open(Source::History);
    r.activate_row();

    // The MIDI panel is inside the archive, on the track itself — not left
    // sitting on the .zip — and the SoundFont panel is on its font.
    assert_eq!(r.app.midi.location(), zip("classics"));
    assert_eq!(r.under(Panel::Midi), Some(member));
    assert_eq!(r.under(Panel::Sf2), loc("/s/piano.sf2"));

    // A plain file moves the cursor the same way. (Hand the queue back
    // first: while the history is the queue, its overlay reopens on the
    // queue's rows, which predate this entry.)
    r.app.play_source = PlaySource::Directory;
    r.app.history.record(loc("/m/plain.mid"), loc("/s/piano.sf2"), 200, true);
    r.open(Source::History);
    r.activate_row();
    assert_eq!(r.app.midi.location(), fs("/m"));
    assert_eq!(r.under(Panel::Midi), loc("/m/plain.mid"));
}

#[test]
fn history_reveal_points_both_panels_at_the_entry() {
    let mut r = Rig::new();
    r.file("/m/song.mid");
    r.file("/s/piano.sf2");
    r.refresh();

    r.app.history.record(loc("/m/song.mid"), loc("/s/piano.sf2"), 100, true);
    r.open(Source::History);
    let fx = r.app.overlay_reveal();
    r.run(fx);

    assert!(r.app.overlay.is_none());
    assert_eq!(r.under(Panel::Midi), loc("/m/song.mid"));
    assert_eq!(r.under(Panel::Sf2), loc("/s/piano.sf2"));
}

#[test]
fn goto_current_reveals_both_panels() {
    // Each "current" item is in a subdirectory, so revealing it must navigate
    // the panel rather than just move the cursor.
    let (mut r, playing, font) = nested_rig();
    r.app.now_playing = Some(playing.clone());
    r.app.soundfont = Some(font.clone());

    // A single G reveals the current item in *both* panels, regardless of
    // which one is active.
    let fx = r.app.goto_current();
    r.run(fx);

    assert_eq!(r.under(Panel::Midi), Some(playing));
    assert_eq!(r.under(Panel::Sf2), Some(font));
    assert!(r.app.message.is_none());

    let mut r = Rig::new();
    let fx = r.app.goto_current();
    r.run(fx);
    assert!(r.app.message.is_some());
}

// --- the favourites ---------------------------------------------------------

#[test]
fn starring_needs_both_a_track_and_a_soundfont() {
    let mut r = Rig::new();
    let fx = r.app.toggle_favourite(5);
    r.run(fx);
    assert!(r.app.favs.is_empty());
    assert!(r.message().contains("Nothing playing"));

    r.app.now_playing = loc("/m/a.mid");
    r.app.soundfont = loc("/s/one.sf2");
    let fx = r.app.toggle_favourite(5);
    r.run(fx);
    assert_eq!(r.app.favs.len(), 1);
    assert!(r.app.current_is_favourite());
    assert!(r.message().starts_with('★'));

    // The same keypress takes the star back off.
    let fx = r.app.toggle_favourite(6);
    r.run(fx);
    assert!(r.app.favs.is_empty());
    assert!(!r.app.current_is_favourite());
}

#[test]
fn the_star_marks_the_exact_pair_solid_and_other_pairings_hollow() {
    let mut r = Rig::new();
    let a = fs("/m/a.mid");
    let one = fs("/s/one.sf2");
    let two = fs("/s/two.sf2");
    r.app.favs.toggle(a.clone(), one.clone(), 100);

    // MIDI panel: solid only while the pair's own font is the loaded one.
    r.app.soundfont = Some(one.clone());
    assert_eq!(r.app.star_for(Panel::Midi, &a), "★");
    r.app.soundfont = Some(two.clone());
    assert_eq!(r.app.star_for(Panel::Midi, &a), "☆");
    assert_eq!(r.app.star_for(Panel::Midi, &fs("/m/b.mid")), " ");

    // SoundFont panel: solid only against the track that is playing.
    r.app.now_playing = Some(a);
    assert_eq!(r.app.star_for(Panel::Sf2, &one), "★");
    r.app.now_playing = loc("/m/b.mid");
    assert_eq!(r.app.star_for(Panel::Sf2, &one), "☆");
    assert_eq!(r.app.star_for(Panel::Sf2, &two), " ");
}

#[test]
fn favourites_overlay_lists_reorders_and_unstars() {
    let (mut r, _) = starred_rig(3);
    let d = r.tree.disk();
    r.open(Source::Favourites);
    assert_eq!(r.ov().source, Source::Favourites);
    assert_eq!(r.ov().rows.len(), 3);
    // Playlist order, cursor on the first entry.
    assert_eq!(r.ov().selected().unwrap().midi, Some(r.fav(0).0));

    // Tab regroups the history, but the favourites stay one flat list.
    r.app.overlay_cycle_view(&d);
    assert_eq!(r.ov().rows.len(), 3);
    assert_eq!(r.ov().view, View::Pairs);

    // Shift+Down moves the row, and the cursor follows it.
    let fx = r.app.overlay_move(true, &d);
    r.run(fx);
    assert_eq!(r.fav(1).0.file_name(), "a.mid");
    assert_eq!(r.ov().state.selected(), Some(1));
    assert_eq!(r.ov().selected().unwrap().midi.as_ref().unwrap().file_name(), "a.mid");

    // Back up, then past the top: moving off the end is a no-op.
    let fx = r.app.overlay_move(false, &d);
    r.run(fx);
    let fx = r.app.overlay_move(false, &d);
    r.run(fx);
    assert_eq!(r.fav(0).0.file_name(), "a.mid");
    assert_eq!(r.ov().state.selected(), Some(0));

    // `d` unstars the selected row, and `f` is the same gesture here.
    let fx = r.app.overlay_delete(&d);
    r.run(fx);
    assert_eq!(r.app.favs.len(), 2);
    assert_eq!(r.ov().rows.len(), 2);
    let w = r.world();
    let fx = r.app.overlay_toggle_favourite(&w);
    r.run(fx);
    assert_eq!(r.app.favs.len(), 1);

    // There is no erase-all for favourites, so `D` does nothing.
    let fx = r.app.history_clear(&d);
    r.run(fx);
    assert_eq!(r.app.favs.len(), 1);
    assert!(r.app.message.is_none());
}

#[test]
fn f_in_the_history_overlay_stars_a_row_but_not_half_a_pair() {
    let mut r = Rig::new();
    r.app.history.record(loc("/m/a.mid"), loc("/s/one.sf2"), 100, true);
    // A SoundFont loaded with nothing playing.
    r.app.history.record(None, loc("/s/two.sf2"), 200, true);
    r.open(Source::History);
    let w = r.world();

    // The newest row is the font on its own: not a pair, so not starrable.
    let fx = r.app.overlay_toggle_favourite(&w);
    r.run(fx);
    assert!(r.app.favs.is_empty());
    assert!(r.message().contains("Not a pair"));

    // The pair below it stars, and un-stars on a second press.
    r.app.overlay.as_mut().unwrap().move_down(1);
    let fx = r.app.overlay_toggle_favourite(&w);
    r.run(fx);
    assert!(r.app.favs.is_pair(&fs("/m/a.mid"), &fs("/s/one.sf2")));
    let fx = r.app.overlay_toggle_favourite(&w);
    r.run(fx);
    assert!(r.app.favs.is_empty());
    // Starring a history row leaves the history itself alone.
    assert_eq!(r.app.history.len(), 2);
}

// --- queues -----------------------------------------------------------------

#[test]
fn the_playlist_advances_in_order_and_stops_at_the_end() {
    let (mut r, font) = starred_rig(3);

    let step = r.next_fav(&r.fav(0), 0).expect("b.mid");
    assert_eq!(step.midi.file_name(), "b.mid");
    assert_eq!(step.soundfont, Some(font), "each entry brings its own font");
    assert_eq!(step.origin, Origin::Favourite(1));

    // Past the last entry the playlist stops rather than wrapping.
    assert!(r.next_fav(&r.fav(2), 2).is_none());

    // With repeat on it wraps to the first.
    r.app.repeat = true;
    let step = r.next_fav(&r.fav(2), 2).expect("wraps");
    assert_eq!(step.midi.file_name(), "a.mid");
    assert_eq!(step.origin, Origin::Favourite(0));
}

#[test]
fn the_playlist_skips_entries_whose_files_have_gone() {
    let (mut r, _) = starred_rig(3);
    // b.mid disappears from under the playlist.
    r.tree.remove("/m/b.mid");
    let step = r.next_fav(&r.fav(0), 0).expect("c.mid");
    assert_eq!(step.midi.file_name(), "c.mid");
    assert_eq!(step.origin, Origin::Favourite(2));
}

#[test]
fn a_playlist_with_nothing_playable_terminates() {
    let (mut r, _) = starred_rig(2);
    // Repeat on, so a naive scan would wrap around for ever.
    r.app.repeat = true;
    for name in ["a.mid", "b.mid"] {
        r.tree.remove(&join_path("/m", name));
    }
    assert!(r.next_fav(&r.fav(0), 0).is_none());
}

#[test]
fn unstarring_the_playing_entry_continues_with_the_one_that_took_its_slot() {
    let (mut r, _) = starred_rig(3);
    let key = r.fav(0);
    // The entry that is playing is un-starred; b.mid now holds slot 0.
    r.app.favs.remove(0);
    let step = r.next_fav(&key, 0).expect("the entry that moved up");
    assert_eq!(step.midi.file_name(), "b.mid");
    assert_eq!(step.origin, Origin::Favourite(0));
}

#[test]
fn a_reorder_while_playing_is_followed() {
    let (mut r, _) = starred_rig(3);
    let key = r.fav(0);
    // a.mid is moved to the end while it plays, so what follows it is what
    // follows its new position — not what followed the old one.
    r.app.favs.swap(0, 2); // c, b, a
    r.app.repeat = true;
    let step = r.next_fav(&key, 0).expect("wraps from the end");
    assert_eq!(step.midi.file_name(), "c.mid");
    assert_eq!(step.origin, Origin::Favourite(0));
}

#[test]
fn the_directory_queue_is_unchanged_by_the_favourites() {
    let (r, _) = starred_rig(3);
    // Nothing started the playlist, so the queue is still the directory:
    // the next file on disk, with no SoundFont of its own.
    let step = r.next(&fs("/m/a.mid")).expect("b.mid follows a.mid");
    assert_eq!(step.midi.file_name(), "b.mid");
    assert_eq!(step.soundfont, None, "the loaded font is kept");
    assert_eq!(step.origin, Origin::Directory);
    assert!(r.app.queue_position().is_none());
}

#[test]
fn playing_a_favourite_makes_it_the_queue_and_enter_hands_it_back() {
    let (mut r, _) = starred_rig(2);
    r.open(Source::Favourites);
    r.activate_row();
    assert!(r.app.overlay.is_some(), "the overlay stays open on activation");
    assert_eq!(r.app.queue_position(), Some((Source::Favourites, 1, 2)));

    // Advancing the queue moves the position along with it.
    let step = r.next_fav(&r.fav(0), 0).expect("b.mid");
    r.step(step);
    assert_eq!(r.app.queue_position(), Some((Source::Favourites, 2, 2)));
    // The queue's own font load is not a choice the user made, so it adds
    // no history row. (This synth cannot load anything, so this only guards
    // the load path, not the play.)
    assert!(r.app.history.is_empty());

    // Playing from the panel hands the queue back to the directory.
    r.app.midi.select_loc(&fs("/m/a.mid"));
    r.app.active = Panel::Midi;
    r.activate();
    assert!(r.app.queue_position().is_none());
}

#[test]
fn emptying_the_list_while_it_is_the_queue_hides_the_badge() {
    let (mut r, _) = starred_rig(2);
    r.play_fav(1);
    assert_eq!(r.app.queue_position(), Some((Source::Favourites, 2, 2)));

    // Un-starring everything mid-playlist must not report a position in a
    // list that no longer has one.
    r.app.favs.remove(1);
    assert_eq!(r.app.queue_position(), Some((Source::Favourites, 1, 1)), "clamped to the list");
    r.app.favs.remove(0);
    assert!(r.app.queue_position().is_none());
}

#[test]
fn a_favourite_whose_file_vanished_reports_instead_of_playing() {
    let (mut r, _) = starred_rig(1);
    r.tree.remove("/m/a.mid");
    r.open(Source::Favourites);
    r.activate_row();

    assert!(r.message().contains("gone"));
    assert!(r.app.now_playing.is_none());
    // The failed start did not make the favourites the queue.
    assert!(r.app.queue_position().is_none());
    // The favourite is kept: the drive may simply be unmounted.
    assert_eq!(r.app.favs.len(), 1);
}

#[test]
fn an_item_without_a_font_plays_through_the_users_font() {
    let mut r = list_rig();
    r.app.user_font = loc("/s/two.sf2");

    let step = r.next_item(r.id(0), 0).expect("b.mid");
    assert_eq!(step.midi.file_name(), "b.mid");
    // Not one.sf2, which the item before it brought along.
    assert_eq!(step.soundfont, loc("/s/two.sf2"));
    assert_eq!(step.origin, Origin::Playlist { id: r.id(1), idx: 1 });

    // With repeat on it wraps round to the item with its own font.
    r.app.repeat = true;
    let step = r.next_item(r.id(2), 2).expect("wraps");
    assert_eq!(step.soundfont, loc("/s/one.sf2"));
    r.app.repeat = false;
    assert!(r.next_item(r.id(2), 2).is_none());
}

#[test]
fn items_without_a_font_are_skipped_until_the_user_has_one() {
    let mut r = list_rig();
    assert!(r.app.user_font.is_none());
    r.app.repeat = true;
    // b and c have nothing to play through; only a can play.
    let step = r.next_item(r.id(0), 0).expect("a.mid");
    assert_eq!(step.midi.file_name(), "a.mid");

    r.play_item(1);
    assert!(r.message().contains("no SoundFont"));
    assert!(r.app.queue_position().is_none(), "a failed start is not the queue");
}

#[test]
fn fonts_the_queue_loads_do_not_become_the_users_font() {
    let mut r = list_rig();
    r.app.user_font = loc("/s/two.sf2");
    r.play_item(0);
    assert_eq!(r.app.queue_position(), Some((Source::Playlist, 1, 3)));
    assert_eq!(r.app.user_font, loc("/s/two.sf2"));

    // Nor when the synth does load them.
    let mut r = list_rig();
    r.works = true;
    r.app.user_font = loc("/s/two.sf2");
    r.play_item(0);
    assert_eq!(r.app.soundfont, loc("/s/one.sf2"));
    assert_eq!(r.app.now_playing, loc("/m/a.mid"));
    assert_eq!(r.app.user_font, loc("/s/two.sf2"));
}

#[test]
fn the_playlist_queue_follows_its_item_through_edits() {
    let mut r = list_rig();
    r.app.user_font = loc("/s/two.sf2");
    r.play_item(1);
    assert_eq!(r.app.queue_position(), Some((Source::Playlist, 2, 3)));

    r.app.playlist.swap(0, 1);
    assert_eq!(r.app.queue_position(), Some((Source::Playlist, 1, 3)));
    // Removed while playing: carry on with what took its slot.
    let id = r.id(0);
    r.app.playlist.remove(0);
    let step = r.next_item(id, 0).expect("the item that moved up");
    assert_eq!(step.midi.file_name(), "a.mid");
}

#[test]
fn the_playlist_plays_on_only_while_its_overlay_is_open() {
    let mut r = list_rig();
    r.app.user_font = loc("/s/two.sf2");
    r.open(Source::Playlist);
    let d = r.tree.disk();
    r.app.overlay_start_filter(&d);
    r.activate_row();
    // Playing an item leaves the overlay open, no longer filtering.
    assert_eq!(r.app.overlay_source(), Some(Source::Playlist));
    assert!(!r.app.overlay_filtering());
    assert_eq!(r.app.queue_position(), Some((Source::Playlist, 1, 3)));
    let a = r.app.playlist.get(0).unwrap().midi.clone();
    let step = r.next(&a).expect("b.mid follows while open");
    assert_eq!(step.midi.file_name(), "b.mid");

    // Closed: the queue is kept, but nothing follows the current item.
    r.app.overlay_close();
    assert!(r.next(&a).is_none());
    assert_eq!(r.app.queue_position(), Some((Source::Playlist, 1, 3)));
    // Nor while another overlay has taken its place.
    r.open(Source::History);
    assert!(r.next(&a).is_none());

    // Reopened on the playing item, and the list carries on.
    r.step(step);
    r.app.overlay_close();
    r.open(Source::Playlist);
    assert_eq!(r.ov().state.selected(), Some(1));
    let b = r.app.playlist.get(1).unwrap().midi.clone();
    let step = r.next(&b).expect("c.mid follows once reopened");
    assert_eq!(step.midi.file_name(), "c.mid");
}

#[test]
fn a_queue_stopped_by_its_closed_overlay_reopens_on_what_follows() {
    let mut r = list_rig();
    r.app.user_font = loc("/s/two.sf2");
    r.open(Source::Playlist);
    r.activate_row();
    r.app.overlay_close();
    // The item ends with the overlay closed: playback stops...
    r.app.next_mode = true;
    r.app.state = PlayState::Playing;
    let a = r.app.playlist.get(0).unwrap().midi.clone();
    r.ended(a);
    assert!(r.app.queue_held);
    // ...and reopening does not resume it, but lands on the next item.
    r.open(Source::Playlist);
    assert!(r.app.state == PlayState::Stopped, "not resumed");
    assert_eq!(r.ov().state.selected(), Some(1));

    // A stop by hand leaves the cursor on the item that was playing.
    r.app.queue_held = false;
    r.open(Source::Playlist);
    assert_eq!(r.ov().state.selected(), Some(0));
}

#[test]
fn the_history_is_a_queue_of_its_rows_as_shown() {
    let mut r = Rig::new();
    let font = fs("/s/f.sf2");
    r.file("/s/f.sf2");
    for (n, when) in [("a.mid", 300), ("b.mid", 200), ("c.mid", 100)] {
        let path = join_path("/m", n);
        r.file(&path);
        r.app.history.record(loc(&path), Some(font.clone()), when, true);
    }
    // A SoundFont-only row is skipped by the queue.
    r.app.history.record(None, Some(font.clone()), 250, true);
    r.open(Source::History);
    r.activate_row();
    assert_eq!(r.app.overlay_source(), Some(Source::History));
    assert_eq!(r.app.queue_position(), Some((Source::History, 1, 4)));
    let step = r.next(&fs("/m/a.mid")).expect("b.mid follows");
    assert_eq!(step.midi.file_name(), "b.mid");
    assert_eq!(step.origin, Origin::History(2));

    // Playing reorders the log, but not the queue.
    r.step(step);
    let b = fs("/m/b.mid");
    r.app.history.record(Some(b.clone()), Some(font), 400, true);
    r.app.overlay_close();
    assert!(r.next(&b).is_none(), "closed: nothing follows");
    r.open(Source::History);
    assert_eq!(r.ov().state.selected(), Some(2));
    assert_eq!(r.ov().rows[2].midi.as_ref().unwrap().file_name(), "b.mid");
    let step = r.next(&b).expect("c.mid follows once reopened");
    assert_eq!(step.midi.file_name(), "c.mid");
}

#[test]
fn the_playlist_overlay_edits_the_list() {
    let mut r = list_rig();
    let d = r.tree.disk();
    r.open(Source::Playlist);
    assert_eq!(r.app.overlay_source(), Some(Source::Playlist));
    assert_eq!(r.ov().rows.len(), 3);

    // `s` needs a loaded font; `x` unpins.
    r.app.overlay_set_font(true, &host(), &d);
    assert!(r.message().contains("No SoundFont"));
    r.app.overlay_set_font(false, &host(), &d);
    assert_eq!(r.app.playlist.get(0).unwrap().soundfont, None);
    r.app.soundfont = loc("/s/two.sf2");
    r.app.overlay_set_font(true, &host(), &d);
    assert_eq!(r.app.playlist.get(0).unwrap().soundfont, loc("/s/two.sf2"));

    let fx = r.app.overlay_move(true, &d);
    r.run(fx);
    assert_eq!(r.app.playlist.get(1).unwrap().midi.file_name(), "a.mid");
    assert_eq!(r.ov().state.selected(), Some(1));

    let fx = r.app.overlay_delete(&d);
    r.run(fx);
    assert_eq!(r.app.playlist.len(), 2);
    assert!(r.app.playlist.is_dirty());
}

#[test]
fn adding_from_the_panel_appends_with_or_without_the_font() {
    let mut r = list_rig();
    r.app.midi.select_loc(&fs("/m/b.mid"));
    r.app.playlist_add(false, &host());
    assert_eq!(r.app.playlist.len(), 4);
    assert_eq!(r.app.playlist.get(3).unwrap().soundfont, None);
    // The cursor moved on, so the next press adds the next file.
    assert_eq!(r.app.midi.selected().map(|e| e.name.clone()), Some("c.mid".to_string()));

    r.app.playlist_add(true, &host());
    assert!(r.message().contains("No SoundFont"));
    assert_eq!(r.app.playlist.len(), 4);
    r.app.soundfont = loc("/s/one.sf2");
    r.app.playlist_add(true, &host());
    assert_eq!(r.app.playlist.get(4).unwrap().soundfont, loc("/s/one.sf2"));

    // Only from the MIDI panel.
    r.app.active = Panel::Sf2;
    r.app.playlist_add(false, &host());
    assert_eq!(r.app.playlist.len(), 5);
}

#[test]
fn quitting_with_unsaved_changes_asks_first() {
    let mut r = list_rig();
    assert!(r.app.playlist.is_dirty());
    r.app.request_quit();
    assert!(!r.app.quit, "the first q only warns");
    r.app.request_quit();
    assert!(r.app.quit);

    // Any other key in between takes the question back.
    let mut r = list_rig();
    r.app.request_quit();
    r.app.disarm_discard();
    r.app.request_quit();
    assert!(!r.app.quit);

    // Nothing to lose: quit at once.
    let mut r = Rig::new();
    r.app.request_quit();
    assert!(r.app.quit);
}

#[test]
fn a_question_stands_only_while_its_own_key_is_pressed_again() {
    // `q`, then Enter on a directory, then `q`: not two in a row.
    let mut r = list_rig();
    r.tree.put("/m/sub", FileKind::Dir);
    r.refresh();
    r.key(Code::Home);
    while r.app.midi.selected().unwrap().name != "sub" {
        r.key(Code::Down);
    }
    r.key(Code::Char('q'));
    assert!(!r.app.quit);
    assert!(r.message().contains("q again"));
    r.key(Code::Enter);
    assert_eq!(r.app.midi.location(), fs("/m/sub"));
    assert!(r.app.discard_armed.is_none());
    r.key(Code::Char('q'));
    assert!(!r.app.quit, "opening a directory takes the question back");
    r.key(Code::Home);
    r.key(Code::Char('q'));
    assert!(!r.app.quit, "moving the cursor takes the question back");
    r.key(Code::Char('Q'));
    assert!(r.app.quit);

    // Enter on a playlist asks too, and `q` is another key.
    let mut r = list_rig();
    r.tree.write("/m/other.m3u", "/m/b.mid\n");
    r.refresh();
    let w = r.world();
    let fx = r.app.open_playlist("/m/other.m3u", &w.host);
    r.run(fx);
    assert!(r.message().contains("Enter again"));
    r.key(Code::Char('q'));
    assert!(!r.app.quit);
    assert!(r.message().contains("q again"));
    assert!(r.app.playlist.is_dirty());
}

#[test]
fn a_directory_that_is_no_text_is_entered_and_shown() {
    let raw = format!("/m/d{}", join_pieces(&vec![Piece::Bytes(vec![0xff])]));
    let mut r = list_rig();
    r.tree.put(&raw, FileKind::Dir);
    r.file(&format!("{raw}/x.mid"));
    r.refresh();
    r.key(Code::Home);
    while r.app.midi.selected().unwrap().name != "d\u{fffd}" {
        r.key(Code::Down);
    }
    r.key(Code::Enter);
    assert_eq!(r.app.midi.location(), fs(&raw));
    assert_eq!(r.app.midi.dir_display(), "/m/d\u{fffd}");
    r.key(Code::Down);
    assert_eq!(r.app.midi.selected().unwrap().loc, fs(&format!("{raw}/x.mid")));
    // The prompts take up what is shown.
    r.app.start_goto();
    assert_eq!(r.app.prompt.as_ref().unwrap().buf, "/m/d\u{fffd}/");
    r.app.prompt = None;
    r.open(Source::Playlist);
    r.save(false);
    assert_eq!(r.app.prompt.as_ref().unwrap().buf, "/m/d\u{fffd}/playlist.m3u");
    r.app.prompt = None;
    r.app.playlist_written(format!("{raw}/l.m3u"), None, false);
    assert_eq!(r.message(), "Saved /m/d\u{fffd}/l.m3u (3 items)");
    let body = voxfont::state::serialize(&r.app.session());
    assert!(body.contains("playlist = /m/d\u{fffd}/l.m3u\n"));
    assert!(body.contains("midi_dir = /m/d\u{fffd}\n"));
    // Leaving it lands on it.
    r.app.overlay_close();
    r.run(vec![Effect::GoUp(Panel::Midi)]);
    assert_eq!(r.app.midi.location(), fs("/m"));
    assert_eq!(r.app.midi.selected().unwrap().loc, fs(&raw));
}

#[test]
fn saving_a_new_playlist_asks_for_a_file_and_guards_others() {
    let mut r = list_rig();
    r.open(Source::Playlist);
    r.save(false);
    let prompt = r.app.prompt.as_ref().expect("a new list asks where to save");
    assert_eq!(prompt.kind, PromptKind::SavePlaylist);
    assert!(prompt.buf.ends_with("playlist.m3u"));

    // The extension is added when left off.
    r.app.prompt.as_mut().unwrap().buf = "/m/evening".to_string();
    r.submit();
    assert!(r.app.prompt.is_none());
    assert!(r.tree.body("/m/evening.m3u").is_some());
    assert!(!r.app.playlist.is_dirty());
    assert_eq!(r.app.playlist.path().map(|p| p.as_str()), Some("/m/evening.m3u"));

    // `w` now saves in place, with no prompt.
    r.app.playlist.remove(0);
    r.save(false);
    assert!(r.app.prompt.is_none());
    assert!(!r.app.playlist.is_dirty());

    // Saving over a different, existing file asks for a second Enter.
    r.tree.write("/m/other.m3u", "keep me\n");
    r.save(true);
    r.app.prompt.as_mut().unwrap().buf = "/m/other.m3u".to_string();
    r.submit();
    assert!(r.app.prompt.is_some());
    assert_eq!(r.tree.body("/m/other.m3u").unwrap(), "keep me\n");
    r.submit();
    assert!(r.app.prompt.is_none());
    assert!(r.tree.body("/m/other.m3u").unwrap().starts_with("#EXTM3U"));
}

#[test]
fn enter_on_a_playlist_file_opens_it_and_guards_unsaved_edits() {
    let mut r = list_rig();
    r.tree.write("/m/list.m3u", "a.mid\n#VOXFONT:sf=x.sf2\n");
    r.refresh();
    r.app.midi.select_loc(&fs("/m/list.m3u"));
    r.app.active = Panel::Midi;

    // The open list has unsaved edits: the first Enter only asks.
    r.activate();
    assert_eq!(r.app.playlist.len(), 3);
    assert!(r.app.overlay.is_none());
    r.activate();
    assert_eq!(r.app.playlist.len(), 1);
    assert_eq!(r.app.playlist.path().map(|p| p.as_str()), Some("/m/list.m3u"));
    assert_eq!(r.app.overlay_source(), Some(Source::Playlist));
    assert!(r.message().contains("1 line ignored"));
    assert!(r.app.now_playing.is_none(), "opening does not play");
}

#[test]
fn playing_the_playlist_leaves_the_panels_where_they_are() {
    let (mut r, track, font) = nested_rig();
    r.add(track, Some(font.clone()));
    r.add(fs("/m/sub/next.mid"), None);
    r.app.user_font = Some(font);

    r.play_item(0);
    assert_eq!(r.app.queue_position(), Some((Source::Playlist, 1, 2)));
    let step = r.next_item(r.id(0), 0).expect("next");
    r.step(step);
    assert_eq!(r.app.queue_position(), Some((Source::Playlist, 2, 2)));

    assert_eq!(r.app.midi.location(), fs("/m"));
    assert_eq!(r.app.sf2.location(), fs("/s"));
}

#[test]
fn the_history_and_favourites_queues_move_the_panels_onto_each_entry() {
    for origin in [Origin::History(0), Origin::Favourite(0)] {
        let (mut r, track, font) = nested_rig();
        r.step(Step { midi: track.clone(), soundfont: Some(font.clone()), origin });
        assert_eq!(r.under(Panel::Midi), Some(track));
        assert_eq!(r.under(Panel::Sf2), Some(font));
    }
}

// --- with a synth that plays ------------------------------------------------

/// A rig whose synth works, with a font loaded and three tracks.
fn sounding_rig() -> Rig {
    let mut r = Rig::new();
    for n in ["a.mid", "b.mid", "c.mid"] {
        r.file(&join_path("/m", n));
    }
    r.file("/s/one.sf2");
    r.file("/s/two.sf2");
    r.refresh();
    r.works = true;
    let fx = r.app.restore_soundfont(fs("/s/one.sf2"));
    r.run(fx);
    r
}

fn play(r: &mut Rig, path: &str) {
    let fx = r.app.play_path(fs(path));
    r.run(fx);
}

#[test]
fn a_restored_font_is_the_users_and_leaves_no_record() {
    let r = sounding_rig();
    assert_eq!(r.app.soundfont, loc("/s/one.sf2"));
    assert_eq!(r.app.user_font, loc("/s/one.sf2"));
    assert!(r.app.history.is_empty());
    assert!(r.message().contains("SoundFont loaded: one.sf2"));
}

#[test]
fn a_chosen_font_is_recorded_on_its_own_when_nothing_plays() {
    let mut r = sounding_rig();
    let fx = r.app.load_soundfont(fs("/s/two.sf2"));
    r.run(fx);
    assert_eq!(r.app.user_font, loc("/s/two.sf2"));
    assert_eq!(r.app.history.len(), 1);
    // Under a playing track it waits with the track.
    play(&mut r, "/m/a.mid");
    let fx = r.app.load_soundfont(fs("/s/one.sf2"));
    r.run(fx);
    assert_eq!(r.app.history.len(), 1);
    assert_eq!(r.app.pending.as_ref().unwrap().soundfont, loc("/s/one.sf2"));
    assert_eq!(r.app.pending.as_ref().unwrap().midi, loc("/m/a.mid"));
}

#[test]
fn what_follows_a_track_goes_by_the_modes() {
    // Off, off: stop.
    let finish = |next: bool, repeat: bool, at: &str| {
        let mut r = sounding_rig();
        play(&mut r, at);
        r.app.next_mode = next;
        r.app.repeat = repeat;
        r.log.clear();
        r.tick(true);
        (r.app.state, r.app.now_playing.clone().unwrap().file_name(), r.log.join(","))
    };
    let last = |x: &(PlayState, String, String)| x.1.clone();
    let x = finish(false, false, "/m/a.mid");
    assert_eq!((x.0, last(&x).as_str()), (PlayState::Stopped, "a.mid"));
    let x = finish(false, true, "/m/a.mid");
    assert_eq!((x.0, x.2.contains("play a.mid")), (PlayState::Playing, true));
    let x = finish(true, false, "/m/a.mid");
    assert_eq!((x.0, last(&x).as_str()), (PlayState::Playing, "b.mid"));
    let x = finish(true, false, "/m/c.mid");
    assert_eq!((x.0, last(&x).as_str()), (PlayState::Stopped, "c.mid"));
    let x = finish(true, true, "/m/c.mid");
    assert_eq!((x.0, last(&x).as_str()), (PlayState::Playing, "a.mid"));
}

#[test]
fn a_looped_track_counts_once() {
    let mut r = sounding_rig();
    r.app.next_mode = false;
    r.app.repeat = true;
    play(&mut r, "/m/a.mid");
    for _ in 0..3 {
        r.ns += 2 * MIN_LISTEN_NS;
        r.unix += 10;
        r.tick(true);
    }
    assert_eq!(r.app.history.len(), 1);
    assert_eq!(r.app.history.plays_of(&fs("/m/a.mid"), &fs("/s/one.sf2")), 1);
}

#[test]
fn pauses_do_not_count_as_listening() {
    let mut r = sounding_rig();
    play(&mut r, "/m/a.mid");
    r.ns += 3_000_000_000;
    r.key(Code::Char(' '));
    assert_eq!(r.app.state, PlayState::Paused);
    r.ns += 60_000_000_000;
    assert_eq!(r.app.elapsed_ns(r.ns), 3_000_000_000);
    r.key(Code::Char(' '));
    assert_eq!(r.app.state, PlayState::Playing);
    r.ns += 1_000_000_000;
    assert_eq!(r.app.elapsed_ns(r.ns), 4_000_000_000);
    r.key(Code::Char('s'));
    assert_eq!(r.app.state, PlayState::Stopped);
    assert!(r.app.history.is_empty());
    assert_eq!(r.app.now_playing, loc("/m/a.mid"));
}

#[test]
fn seeking_does_not_count_as_listening() {
    let mut r = sounding_rig();
    play(&mut r, "/m/a.mid");
    r.ns += 1_000_000_000;
    r.position = Some((100, 2000));
    let w = r.world();
    r.app.seek_seconds(30, w.ns, r.position);
    assert_eq!(r.app.elapsed_ns(r.ns), 31_000_000_000);
    r.commit();
    assert!(r.app.history.is_empty());
    assert!(r.app.pending.is_some());
    // Four more seconds make the five that were asked for.
    r.ns += MIN_LISTEN_NS - 1_000_000_001;
    r.commit();
    assert!(r.app.history.is_empty());
    r.app.seek_seconds(-60, r.ns, r.position);
    assert_eq!(r.app.elapsed_ns(r.ns), 0);
    r.ns += 1;
    r.commit();
    assert_eq!(r.app.history.len(), 1);
    assert!(r.app.pending.is_none());
}

#[test]
fn an_unpinned_item_goes_back_to_the_users_font() {
    let mut r = sounding_rig();
    r.add(fs("/m/a.mid"), loc("/s/two.sf2"));
    r.add(fs("/m/b.mid"), None);
    r.open(Source::Playlist);
    r.activate_row();
    assert_eq!(r.app.soundfont, loc("/s/two.sf2"));
    r.tick(true);
    assert_eq!(r.app.now_playing, loc("/m/b.mid"));
    assert_eq!(r.app.soundfont, loc("/s/one.sf2"));
    // Closing the overlay lets the current track finish and stops there.
    r.app.overlay_close();
    r.tick(true);
    assert_eq!(r.app.state, PlayState::Stopped);
}

#[test]
fn playing_without_a_font_says_so() {
    let mut r = Rig::new();
    r.file("/m/a.mid");
    play(&mut r, "/m/a.mid");
    assert!(r.message().contains("No SoundFont loaded"));
    assert!(r.app.now_playing.is_none());
}

#[test]
fn leaving_remembers_what_was_heard() {
    let mut r = sounding_rig();
    r.app.persist_session = true;
    play(&mut r, "/m/b.mid");
    r.ns += MIN_LISTEN_NS;
    let w = r.world();
    let fx = r.app.finish(&w);
    r.log.clear();
    r.run(fx);
    assert_eq!(r.app.history.len(), 1);
    assert!(r.log.iter().any(|l| l.contains("SaveHistory")));
    assert!(matches!(r.app.save_state()[..], [Effect::SaveSession]));
    r.app.persist_session = false;
    assert!(r.app.save_state().is_empty());
    let s = r.app.session();
    assert_eq!(s.midi_file, loc("/m/b.mid"));
    assert_eq!(s.soundfont, loc("/s/one.sf2"));
}

#[test]
fn seeking_keeps_within_the_track() {
    let mut r = sounding_rig();
    play(&mut r, "/m/a.mid");
    r.log.clear();
    r.ns += 10_000_000_000;
    // Half the track in ten seconds: five seconds are a quarter of it.
    r.position = Some((1000, 2000));
    r.key(Code::Right);
    assert_eq!(r.log, ["SeekTicks(500)"]);
    // The clock was moved along with it: 1000 ticks in fifteen seconds.
    assert_eq!(r.app.elapsed_ns(r.ns), 15_000_000_000);
    r.log.clear();
    r.key(Code::Left);
    assert_eq!(r.log, ["SeekTicks(-333)"]);
    assert_eq!(r.app.progress(r.position), (1000, 2000));
    assert_eq!(r.app.progress(None), (0, 1));
}

// --- keys -------------------------------------------------------------------

#[test]
fn keys_move_switch_and_enter() {
    let mut r = sounding_rig();
    r.app.midi.home();
    r.key(Code::Down);
    assert_eq!(r.under(Panel::Midi), loc("/m/a.mid"));
    r.key(Code::End);
    assert_eq!(r.under(Panel::Midi), loc("/m/c.mid"));
    r.key(Code::Up);
    r.key(Code::Enter);
    assert_eq!(r.app.now_playing, loc("/m/b.mid"));
    r.key(Code::Tab);
    assert_eq!(r.app.active, Panel::Sf2);
    r.app.sf2.select_loc(&fs("/s/two.sf2"));
    r.key(Code::Enter);
    assert_eq!(r.app.soundfont, loc("/s/two.sf2"));
    assert_eq!(r.app.user_font, loc("/s/two.sf2"));
}

#[test]
fn keys_set_modes_and_volume() {
    let mut r = sounding_rig();
    r.log.clear();
    r.keys("<");
    assert_eq!(r.app.volume, 59);
    r.keys(">.");
    assert_eq!(r.app.volume, 65);
    assert_eq!(r.log, ["SetGain(59)", "SetGain(60)", "SetGain(65)"]);
    r.press(Key { code: Code::Char('9'), ctrl: false, alt: true, shift: false });
    assert_eq!(r.app.volume, 90);
    r.keys("...");
    assert_eq!(r.app.volume, 100);
    let _ = r.app.set_volume(200);
    assert_eq!(r.app.volume, 100);
    let _ = r.app.volume_delta(-300);
    assert_eq!(r.app.volume, 0);
    let (n, p) = (r.app.next_mode, r.app.repeat);
    r.keys("nr");
    assert_eq!((r.app.next_mode, r.app.repeat), (!n, !p));
    r.keys("h");
    assert!(r.app.show_help);
    // The help takes the next key for itself.
    r.keys("q");
    assert!(!r.app.show_help && !r.app.quit);
    r.keys("q");
    assert!(r.app.quit);
}

#[test]
fn the_search_narrows_and_accepts() {
    let mut r = sounding_rig();
    r.keys("/c");
    assert_eq!(r.app.search.as_deref(), Some("c"));
    assert_eq!(r.app.midi.item_count(), 1);
    r.key(Code::Backspace);
    assert_eq!(r.app.midi.item_count(), 3);
    r.keys("b");
    r.key(Code::Enter);
    assert_eq!(r.app.now_playing, loc("/m/b.mid"));
    assert!(r.app.search.is_none());
    r.keys("/q");
    assert!(!r.app.quit);
    r.key(Code::Esc);
    assert!(r.app.search.is_none());
    assert!(!r.app.midi.is_filtered());
}

#[test]
fn the_prompt_goes_to_a_directory() {
    let (mut r, _, _) = nested_rig();
    r.keys("i");
    assert_eq!(r.app.prompt.as_ref().unwrap().kind, PromptKind::Goto);
    assert_eq!(r.app.prompt.as_ref().unwrap().buf, "/m/");
    r.keys("sub");
    assert_eq!(r.app.prompt_target(&host()).as_deref(), Some("/m/sub"));
    r.key(Code::Enter);
    assert!(r.app.prompt.is_none());
    assert_eq!(r.app.midi.location(), fs("/m/sub"));
    // No such directory: the prompt says so.
    r.keys("i");
    r.keys("nowhere");
    r.key(Code::Enter);
    assert_eq!(r.app.midi.location(), fs("/m/sub"));
    assert!(r.message().to_lowercase().contains("director"), "{}", r.message());
    // Alt+Backspace drops a component, Esc all of it.
    r.keys("i");
    r.press(Key { code: Code::Backspace, ctrl: false, alt: true, shift: false });
    assert_eq!(r.app.prompt.as_ref().unwrap().buf, "/m/");
    r.key(Code::Esc);
    assert!(r.app.prompt.is_none());
}

#[test]
fn completion_goes_as_far_as_the_candidates_agree() {
    let (mut r, _, _) = nested_rig();
    r.keys("i");
    r.log.clear();
    r.keys("su");
    r.key(Code::Tab);
    assert_eq!(r.log, ["CompletePrompt"]);
    let two = vec!["subway/".to_string(), "subtle/".to_string()];
    r.app.prompt_complete("/m/", &two);
    assert_eq!(r.app.prompt.as_ref().unwrap().buf, "/m/sub");
    assert_eq!(r.message(), "2 matches");
    r.app.prompt_complete("/m/", &vec!["sub/".to_string()]);
    assert_eq!(r.app.prompt.as_ref().unwrap().buf, "/m/sub/");
    // Nothing to agree on: the text stays as it is.
    r.app.prompt_complete("/m/", &vec!["a".to_string(), "b".to_string()]);
    assert_eq!(r.app.prompt.as_ref().unwrap().buf, "/m/sub/");
    r.app.prompt_complete("/x/", &vec![]);
    assert_eq!(r.app.prompt.as_ref().unwrap().buf, "/m/sub/");
    // Beyond ASCII too, never through the middle of a character.
    r.app.prompt_complete("/m/", &vec!["né1".to_string(), "nè1".to_string()]);
    assert_eq!(r.app.prompt.as_ref().unwrap().buf, "/m/n");
}

#[test]
fn the_overlay_keys_reach_the_player() {
    let mut r = sounding_rig();
    r.add(fs("/m/a.mid"), None);
    r.add(fs("/m/b.mid"), None);
    r.keys("P");
    assert_eq!(r.app.overlay_source(), Some(Source::Playlist));
    r.key(Code::Enter);
    assert_eq!(r.app.now_playing, loc("/m/a.mid"));
    r.keys(" ");
    assert_eq!(r.app.state, PlayState::Paused);
    // Shift+Down moves the item.
    r.press(Key { code: Code::Down, ctrl: false, alt: false, shift: true });
    assert_eq!(r.app.playlist.get(1).unwrap().midi, fs("/m/a.mid"));
    assert_eq!(r.app.queue_position(), Some((Source::Playlist, 2, 2)));
    r.keys("S");
    assert_eq!(r.app.playlist.get(1).unwrap().soundfont, loc("/s/one.sf2"));
    r.keys("x");
    assert_eq!(r.app.playlist.get(1).unwrap().soundfont, None);
    r.keys("d");
    assert_eq!(r.app.playlist.len(), 1);
    r.key(Code::Esc);
    assert!(r.app.overlay.is_none());
    // The list has edits: leaving asks.
    r.keys("q");
    assert!(!r.app.quit);
    r.keys("h");
    r.key(Code::Esc);
    r.keys("q");
    assert!(!r.app.quit, "another key takes the question back");
    r.keys("q");
    assert!(r.app.quit);
}

#[test]
fn erasing_the_history_takes_two_keys_in_a_row() {
    let mut r = Rig::new();
    r.app.history.record(loc("/m/a.mid"), loc("/s/one.sf2"), 100, true);
    r.app.history.record(loc("/m/b.mid"), loc("/s/one.sf2"), 200, true);
    r.keys("RD");
    assert_eq!(r.app.history.len(), 2);
    r.key(Code::Down);
    r.keys("D");
    assert_eq!(r.app.history.len(), 2);
    r.keys("D");
    assert!(r.app.history.is_empty());
}

#[test]
fn filtering_an_overlay_takes_the_letters() {
    let mut r = Rig::new();
    r.app.history.record(loc("/m/a.mid"), loc("/s/one.sf2"), 100, true);
    r.app.history.record(loc("/m/dq.mid"), loc("/s/one.sf2"), 200, true);
    r.keys("R/dq");
    assert_eq!(r.ov().rows.len(), 1);
    assert_eq!(r.app.history.len(), 2);
    assert!(!r.app.quit && r.app.overlay_filtering());
    r.key(Code::Backspace);
    assert_eq!(r.ov().filter, "d");
    r.key(Code::Esc);
    assert_eq!(r.ov().rows.len(), 2);
    r.keys("R");
    assert!(r.app.overlay.is_none());
}

#[test]
fn hidden_files_show_in_both_panels() {
    let mut r = Rig::new();
    r.file("/m/.a.mid");
    r.file("/s/.one.sf2");
    r.refresh();
    assert_eq!((r.app.midi.item_count(), r.app.sf2.item_count()), (0, 0));
    r.keys("H");
    assert_eq!((r.app.midi.item_count(), r.app.sf2.item_count()), (1, 1));
    r.keys("H");
    assert_eq!((r.app.midi.item_count(), r.app.sf2.item_count()), (0, 0));
}

#[test]
fn a_list_that_cannot_be_read_is_reported() {
    let mut r = Rig::new();
    let w = r.world();
    assert!(r.app.load_playlist("/m/x.m3u", Err("no such file".to_string()), &w).is_err());
    assert!(r.app.playlist.is_empty());
    r.app.launch_playlist("/m/x.m3u", Ok("a.mid\n".to_string()), &w);
    assert_eq!(r.app.playlist.len(), 1);
    assert_eq!(r.app.overlay_source(), Some(Source::Playlist));
    let fx = r.app.playlist_written("/m/x.m3u".to_string(), Some("disk full".to_string()), false);
    r.run(fx);
    assert!(r.message().contains("disk full"));
}
