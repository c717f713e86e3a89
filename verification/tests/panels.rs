//! The panels, on a disk that stands on paper.

use voxfont::browser::Browser;
use voxfont::midi::{parse, Length};
use voxfont::paths::{file_name_of, join_path, parent_of, same_path};
use voxfont::vfs::{read_dir, DirChild, DiskEntry, Location, ZipCache};

struct Tree {
    entries: Vec<(String, DiskEntry)>,
    zips: ZipCache,
}

fn fs(p: &str) -> Location {
    Location::Fs(p.to_string())
}

fn zip(archive: &str, inner: &str) -> Location {
    Location::Zip { archive: archive.to_string(), inner: inner.to_string() }
}

impl Tree {
    fn new() -> Tree {
        Tree { entries: Vec::new(), zips: ZipCache::new() }
    }

    fn put(&mut self, path: &str, is_dir: bool, size: u64, length: Option<Length>) {
        let entry = DiskEntry { name: file_name_of(path).unwrap(), is_dir, size, length };
        self.entries.push((path.to_string(), entry));
    }

    fn dir(&mut self, path: &str) {
        self.put(path, true, 0, None);
    }

    fn file(&mut self, path: &str) {
        self.put(path, false, 1, None);
    }

    fn bytes(&mut self, path: &str, data: &Vec<u8>) {
        self.put(path, false, data.len() as u64, parse(data).map(|i| i.length));
    }

    fn archive(&mut self, path: &str, names: &[&str]) {
        self.put(path, false, 99, None);
        let v: Vec<String> = names.iter().map(|n| n.to_string()).collect();
        self.zips.add_archive(path, &v);
    }

    fn children(&self, dir: &Location, allow: bool) -> Vec<DirChild> {
        let here: Vec<DiskEntry> = match dir {
            Location::Fs(d) => self
                .entries
                .iter()
                .filter(|(path, _)| parent_of(path).map_or(false, |p| same_path(&p, d)))
                .map(|(_, e)| DiskEntry {
                    name: e.name.clone(),
                    is_dir: e.is_dir,
                    size: e.size,
                    length: e.length,
                })
                .collect(),
            Location::Zip { .. } => Vec::new(),
        };
        read_dir(dir, &here, &self.zips, allow)
    }

    fn browser(&self, dir: Location, exts: &[&str], lengths: bool, allow: bool) -> Browser {
        let v: Vec<String> = exts.iter().map(|n| n.to_string()).collect();
        let kids = self.children(&dir, allow);
        Browser::new_at(dir, &v, lengths, allow, &kids)
    }

    fn enter(&self, b: &mut Browser) {
        let kids = match b.enter_target() {
            Some(l) => self.children(&l, true),
            None => Vec::new(),
        };
        b.enter_dir(&kids);
    }

    fn up(&self, b: &mut Browser) {
        let kids = match b.up_target() {
            Some(l) => self.children(&l, true),
            None => Vec::new(),
        };
        b.go_up(&kids);
    }

    fn show(&self, b: &mut Browser, loc: &Location) {
        let kids = match b.reveal_target(loc) {
            Some(l) => self.children(&l, true),
            None => Vec::new(),
        };
        b.reveal_loc(loc, &kids);
    }

    fn next(&self, b: &Browser, loc: &Location, forward: bool) -> Option<Location> {
        b.neighbour_file(loc, forward, &self.children(&loc.parent().unwrap(), true))
    }
}

fn names(b: &Browser) -> Vec<String> {
    b.entries.iter().filter(|e| !e.is_parent).map(|e| e.name.clone()).collect()
}

fn on(b: &mut Browser, name: &str) {
    let at = b.entries.iter().position(|e| e.name == name);
    b.state.select(Some(at.unwrap()));
}

fn cursor(b: &Browser) -> String {
    b.selected().unwrap().name.clone()
}

/// A Standard MIDI File of one track with the given division and events.
fn smf(division: u16, events: &[u8]) -> Vec<u8> {
    let mut v = b"MThd".to_vec();
    v.extend_from_slice(&6u32.to_be_bytes());
    v.extend_from_slice(&1u16.to_be_bytes()); // format
    v.extend_from_slice(&1u16.to_be_bytes()); // ntracks
    v.extend_from_slice(&division.to_be_bytes());
    v.extend_from_slice(b"MTrk");
    v.extend_from_slice(&(events.len() as u32).to_be_bytes());
    v.extend_from_slice(events);
    v
}

/// A minimal valid SMF: PPQ 480, 120 BPM, one quarter long (0.5 s).
fn minimal_midi() -> Vec<u8> {
    smf(
        480,
        &[
            0x00, 0xFF, 0x51, 0x03, 0x07, 0xA1, 0x20, // tempo 120
            0x83, 0x60, 0xFF, 0x2F, 0x00, // delta 480, end of track
        ],
    )
}

fn seconds(l: Length) -> f64 {
    l.num as f64 / l.den as f64
}

#[test]
fn filters_sorts_and_marks_parent() {
    let mut t = Tree::new();
    t.dir("/d/zsub");
    t.dir("/d/asub");
    t.file("/d/b.mid");
    t.file("/d/a.midi");
    t.file("/d/c.mid");
    t.file("/d/note.txt");
    t.file("/d/.hidden.mid");

    let b = t.browser(fs("/d"), &["mid", "midi"], false, false);
    // Dirs first (alphabetical), then files (alphabetical); .txt and the
    // dotfile are excluded.
    assert_eq!(names(&b), ["asub", "zsub", "a.midi", "b.mid", "c.mid"]);
    assert!(b.entries[0].is_parent, "first entry should be '..'");
}

#[test]
fn hidden_toggle_reveals_dotfiles() {
    let mut t = Tree::new();
    t.file("/d/.secret.mid");
    t.file("/d/plain.mid");
    let mut b = t.browser(fs("/d"), &["mid"], false, false);
    assert_eq!(names(&b), ["plain.mid"]);
    b.show_hidden = true;
    b.refresh(&t.children(&fs("/d"), false));
    assert_eq!(names(&b), [".secret.mid", "plain.mid"]);
    assert!(b.shows_hidden());
}

#[test]
fn populates_size_and_duration() {
    let mut t = Tree::new();
    t.bytes("/d/song.mid", &minimal_midi());
    let b = t.browser(fs("/d"), &["mid"], true, false);
    let e = b.entries.iter().find(|e| e.name == "song.mid").unwrap();
    assert_eq!(e.size, minimal_midi().len() as u64);
    let dur = seconds(e.length.expect("duration should be computed"));
    assert!((dur - 0.5).abs() < 1e-6, "{dur}");
}

#[test]
fn duration_skipped_when_disabled() {
    let mut t = Tree::new();
    t.bytes("/d/song.mid", &minimal_midi());
    let b = t.browser(fs("/d"), &["mid"], false, false);
    let e = b.entries.iter().find(|e| e.name == "song.mid").unwrap();
    assert!(e.length.is_none());
}

#[test]
fn neighbour_file_walks_files_only() {
    let mut t = Tree::new();
    for n in ["a.mid", "b.mid", "c.mid"] {
        t.file(&join_path("/d", n));
    }
    t.dir("/d/bb.mid");
    let b = t.browser(fs("/d"), &["mid"], false, false);
    let (a, bb, c) = (fs("/d/a.mid"), fs("/d/b.mid"), fs("/d/c.mid"));
    assert_eq!(t.next(&b, &bb, true), Some(c.clone()));
    assert_eq!(t.next(&b, &bb, false), Some(a.clone()));
    assert_eq!(t.next(&b, &a, false), None);
    assert_eq!(t.next(&b, &c, true), None);
    // One that is not among the files has no neighbours.
    assert_eq!(t.next(&b, &fs("/d/zz.mid"), true), None);
}

#[test]
fn neighbour_and_first_follow_the_playing_dir_not_the_browsed_one() {
    // Two directories, each with its own files. Start the browser in `play`
    // (where the "playing" file lives), then navigate it away into `other`.
    // Auto-advance must still resolve within `play`.
    let mut t = Tree::new();
    t.dir("/r/play");
    t.dir("/r/other");
    for n in ["1.mid", "2.mid", "3.mid"] {
        t.file(&join_path("/r/play", n));
    }
    t.file("/r/other/z.mid");

    let mut b = t.browser(fs("/r/play"), &["mid"], false, false);
    // Browse away to the unrelated directory.
    b.set_dir("/r/other".to_string(), &t.children(&fs("/r/other"), false));
    assert_eq!(b.location(), fs("/r/other"));

    let p = |n: &str| fs(&join_path("/r/play", n));
    // Next/previous still walk the playing file's own directory.
    assert_eq!(t.next(&b, &p("2.mid"), true), Some(p("3.mid")));
    assert_eq!(t.next(&b, &p("2.mid"), false), Some(p("1.mid")));
    // Past the end, repeat-mode wrap finds the first file of that dir.
    assert_eq!(t.next(&b, &p("3.mid"), true), None);
    let kids = t.children(&fs("/r/play"), false);
    assert_eq!(b.first_file_of(&p("3.mid"), &kids), Some(p("1.mid")));
}

#[test]
fn filter_narrows_list_and_selects_first_match() {
    let mut t = Tree::new();
    for n in ["alpha.mid", "bravo.mid", "brazil.mid", "charlie.mid"] {
        t.file(&join_path("/d", n));
    }
    let mut b = t.browser(fs("/d"), &["mid"], false, false);
    assert_eq!(b.total_count(), 4);

    b.set_filter("BR"); // case-insensitive
    assert!(b.is_filtered());
    assert_eq!(names(&b), ["bravo.mid", "brazil.mid"]);
    assert_eq!(b.item_count(), 2);
    assert_eq!(b.total_count(), 4);
    // Cursor lands on the first match and can move within the filtered set.
    assert_eq!(cursor(&b), "bravo.mid");
    b.move_down(1);
    assert_eq!(cursor(&b), "brazil.mid");

    // Clearing restores the full list, keeping the cursor on the same item.
    b.set_filter("");
    assert!(!b.is_filtered());
    assert_eq!(b.item_count(), 4);
    assert_eq!(cursor(&b), "brazil.mid");
}

#[test]
fn filter_with_no_match_clears_selection() {
    let mut t = Tree::new();
    t.file("/d/song.mid");
    let mut b = t.browser(fs("/d"), &["mid"], false, false);
    b.set_filter("zzz");
    assert!(b.selected().is_none());
    assert_eq!(b.item_count(), 0);
}

#[test]
fn changing_directory_drops_the_filter() {
    let mut t = Tree::new();
    t.dir("/d/sub");
    t.file("/d/sub/inner.mid");
    let mut b = t.browser(fs("/d"), &["mid"], false, false);
    b.set_filter("zzz"); // hides everything
    // Re-select "sub" in the unfiltered list to enter it.
    b.set_filter("");
    on(&mut b, "sub");
    t.enter(&mut b);
    assert!(!b.is_filtered(), "entering a directory clears the filter");
    assert_eq!(names(&b), ["inner.mid"]);
}

#[test]
fn enter_and_go_up_navigate() {
    let mut t = Tree::new();
    t.dir("/d/sub");
    let mut b = t.browser(fs("/d"), &["mid"], false, false);
    on(&mut b, "sub");
    t.enter(&mut b);
    assert_eq!(b.location(), fs("/d/sub"));
    t.up(&mut b);
    assert_eq!(b.location(), fs("/d"));
}

#[test]
fn entering_parent_lands_on_previous_dir() {
    let mut t = Tree::new();
    t.dir("/d/sub");
    let mut b = t.browser(fs("/d"), &["mid"], false, false);
    on(&mut b, "sub");
    t.enter(&mut b);
    assert_eq!(b.location(), fs("/d/sub"));

    // The cursor is on ".."; entering it should go up and highlight "sub",
    // not leave the cursor parked on the new "..".
    assert!(b.selected().unwrap().is_parent);
    t.enter(&mut b);
    assert_eq!(b.location(), fs("/d"));
    assert_eq!(cursor(&b), "sub");
}

#[test]
fn reveal_navigates_to_a_files_directory() {
    let mut t = Tree::new();
    t.dir("/d/sub");
    t.file("/d/sub/song.mid");
    t.file("/d/other.mid");

    // Start in the root, sitting on a different entry.
    let mut b = t.browser(fs("/d"), &["mid"], false, false);
    let target = fs("/d/sub/song.mid");
    t.show(&mut b, &target);

    // It should have descended into "sub" and put the cursor on the file.
    assert_eq!(b.location(), fs("/d/sub"));
    assert_eq!(b.selected().unwrap().loc, target);
}

#[test]
fn reveal_descends_into_zip_member() {
    let mut t = Tree::new();
    t.archive("/d/songs.zip", &["a/x.mid", "b.mid"]);

    let mut b = t.browser(fs("/d"), &["mid"], false, true);
    let target = zip("/d/songs.zip", "a/x.mid");
    t.show(&mut b, &target);

    assert_eq!(b.location(), zip("/d/songs.zip", "a"));
    assert_eq!(b.selected().unwrap().loc, target);
}

#[test]
fn select_loc_restores_cursor_including_zip_members() {
    let mut t = Tree::new();
    for n in ["a.mid", "b.mid", "c.mid"] {
        t.file(&join_path("/d", n));
    }
    t.archive("/d/z.zip", &["inner/song.mid"]);

    // Filesystem file: cursor lands on the saved location.
    let mut b = t.browser(fs("/d"), &["mid"], false, true);
    b.select_loc(&fs("/d/b.mid"));
    assert_eq!(cursor(&b), "b.mid");

    // A location not in the current listing leaves the cursor put.
    b.select_loc(&fs("/d/missing.mid"));
    assert_eq!(cursor(&b), "b.mid");

    // The same works for a member inside a zip: open the subdir, then place
    // the cursor on the saved member (this is the launch-time restore path).
    let mut z = t.browser(zip("/d/z.zip", "inner"), &["mid"], false, true);
    z.select_loc(&zip("/d/z.zip", "inner/song.mid"));
    assert_eq!(cursor(&z), "song.mid");
}

#[test]
fn browses_into_zip_and_back_out() {
    let mut t = Tree::new();
    t.archive("/d/songs.zip", &["a/x.mid", "b.mid", "n.txt"]);
    let mut b = t.browser(fs("/d"), &["mid"], false, true);

    // The archive appears in the filesystem listing as a directory.
    let zi = b.entries.iter().position(|e| e.name == "songs.zip").unwrap();
    assert!(b.entries[zi].is_dir);
    assert_eq!(b.entries[zi].size, 99);
    b.state.select(Some(zi));
    t.enter(&mut b);

    // Inside the zip root: the .txt is filtered out, "a/" shows as a dir.
    assert_eq!(names(&b), ["a", "b.mid"]);
    assert!(matches!(b.location(), Location::Zip { ref inner, .. } if inner.is_empty()));

    // Stepping back out of the archive lands on the archive entry again.
    t.up(&mut b);
    assert_eq!(b.location(), fs("/d"));
    assert_eq!(cursor(&b), "songs.zip");
}

#[test]
fn the_font_panel_leaves_archives_out() {
    let mut t = Tree::new();
    t.archive("/d/songs.zip", &["a.sf2"]);
    t.file("/d/one.SF2");
    let b = t.browser(fs("/d"), &["sf2", "sf3"], false, false);
    assert_eq!(names(&b), ["one.SF2"]);
}

#[test]
fn further_extensions_are_shown_but_not_played() {
    let mut t = Tree::new();
    t.file("/d/a.mid");
    t.file("/d/b.m3u");
    t.file("/d/c.mid");
    let kids = t.children(&fs("/d"), true);
    let b = t.browser(fs("/d"), &["mid"], false, true).also_listing(&vec!["m3u".to_string()], &kids);
    assert_eq!(names(&b), ["a.mid", "b.m3u", "c.mid"]);
    assert_eq!(t.next(&b, &fs("/d/a.mid"), true), Some(fs("/d/c.mid")));
    assert_eq!(t.next(&b, &fs("/d/b.m3u"), true), None);
}

#[test]
fn selecting_deep_steps_into_an_archive() {
    let mut t = Tree::new();
    t.archive("/d/z.zip", &["inner/song.mid"]);
    t.file("/d/a.mid");
    let mut b = t.browser(fs("/d"), &["mid"], false, true);
    let member = zip("/d/z.zip", "inner/song.mid");
    let kids = t.children(&b.deep_target(&member).unwrap(), true);
    b.select_deep(&member, &kids);
    assert_eq!(b.location(), zip("/d/z.zip", "inner"));
    assert_eq!(cursor(&b), "song.mid");
    assert_eq!(b.dir_display(), "/d/z.zip:/inner");
    assert_eq!(b.fs_dir(), "/d");
    // What stands in the directory itself needs no step.
    let mut b = t.browser(fs("/d"), &["mid"], false, true);
    assert!(b.deep_target(&fs("/d/a.mid")).is_none());
    b.select_deep(&fs("/d/a.mid"), &vec![]);
    assert_eq!(cursor(&b), "a.mid");
}

#[test]
fn the_cursor_stays_within_the_list() {
    let mut t = Tree::new();
    for n in ["a.mid", "b.mid", "c.mid"] {
        t.file(&join_path("/", n));
    }
    let mut b = t.browser(fs("/"), &["mid"], false, false);
    // The root has no "..".
    assert_eq!(b.entries.len(), 3);
    assert!(b.up_target().is_none());
    b.end();
    assert_eq!(cursor(&b), "c.mid");
    b.move_down(5);
    assert_eq!(cursor(&b), "c.mid");
    b.move_up(1);
    assert_eq!(cursor(&b), "b.mid");
    b.move_up(9);
    assert_eq!(cursor(&b), "a.mid");
    b.end();
    b.home();
    assert_eq!(cursor(&b), "a.mid");
    t.up(&mut b);
    assert_eq!(b.location(), fs("/"));
}

// --- MIDI files -------------------------------------------------------------

#[test]
fn a_file_without_a_header_is_none() {
    assert!(parse(&b"MThd".to_vec()).is_none());
    assert!(parse(&vec![0u8; 40]).is_none());
    assert!(parse(&Vec::new()).is_none());
}

#[test]
fn the_length_honours_tempo_changes() {
    // One quarter at 120 BPM, then two at 60 BPM: 0.5 s + 2 s.
    let data = smf(
        480,
        &[
            0x83, 0x60, 0xFF, 0x51, 0x03, 0x0F, 0x42, 0x40, // at 480: tempo 60
            0x87, 0x40, 0xFF, 0x2F, 0x00, // delta 960, end of track
        ],
    );
    let i = parse(&data).unwrap();
    assert_eq!(i.division, 480);
    assert_eq!((i.length.num, i.length.den), (480 * 500_000 + 960 * 1_000_000, 480_000_000));
    assert_eq!(seconds(i.length), 2.5);
    assert_eq!((i.ts_num, i.ts_den), (4, 4));
}

#[test]
fn the_first_time_signature_counts() {
    let data = smf(
        96,
        &[
            0x00, 0xFF, 0x58, 0x04, 0x06, 0x03, 0x24, 0x08, // 6/8
            0x00, 0xFF, 0x58, 0x04, 0x03, 0x02, 0x18, 0x08, // 3/4
            0x00, 0x90, 0x3C, 0x40, // a note, then running status
            0x60, 0x3C, 0x00, // delta 96
            0x00, 0xFF, 0x2F, 0x00,
        ],
    );
    let i = parse(&data).unwrap();
    assert_eq!((i.ts_num, i.ts_den), (6, 8));
    assert_eq!(seconds(i.length), 0.5);
}

#[test]
fn smpte_timing_has_no_length() {
    let data = smf(0xE728, &[0x00, 0xFF, 0x2F, 0x00]);
    let i = parse(&data).unwrap();
    assert_eq!(i.division, 0);
    assert_eq!((i.length.num, i.length.den), (0, 0));
}
