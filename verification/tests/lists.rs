//! Playlist files.

use voxfont::history::History;
use voxfont::host::Host;
use voxfont::playlist::{
    absolute, disk_probes, file_probes, is_playlist_name, parse, Doc, Item, Playlist,
};
use voxfont::raw::{join_pieces, Piece};
use voxfont::vfs::{Disk, FileKind, Location};

fn fs(p: &str) -> Location {
    Location::Fs(p.to_string())
}

fn zip(archive: &str, inner: &str) -> Location {
    Location::Zip { archive: archive.to_string(), inner: inner.to_string() }
}

fn host() -> Host {
    Host { home: Some("/home/me".to_string()), xdg_config: None, cwd: Some("/work".to_string()) }
}

fn read(body: &str, base: &str) -> Doc {
    parse(body, base, &host(), &Disk::new())
}

fn is_item(i: &Item, midi: &str, sf: Option<&str>) -> bool {
    i.midi == fs(midi) && i.soundfont == sf.map(fs) && i.extra.is_empty()
}

#[test]
fn a_font_directive_applies_to_the_next_item_only() {
    let doc = read(
        "#EXTM3U\n\
         #VOXFONT:sf=/s/one.sf2\n\
         /m/a.mid\n\
         /m/b.mid\n\
         #VOXFONT:sf=/s/two.sf2\n\
         /m/a.mid\n",
        "/lists",
    );
    assert_eq!(doc.items.len(), 3);
    assert!(is_item(&doc.items[0], "/m/a.mid", Some("/s/one.sf2")));
    assert!(is_item(&doc.items[1], "/m/b.mid", None));
    // The same track again is a separate item.
    assert!(is_item(&doc.items[2], "/m/a.mid", Some("/s/two.sf2")));
    assert_eq!(doc.ignored, 0);
}

#[test]
fn a_plain_m3u_is_a_list_of_items_without_fonts() {
    let doc = read("/m/a.mid\r\n/m/b.MID\r\n", "/lists");
    assert_eq!(doc.items.len(), 2);
    assert!(is_item(&doc.items[0], "/m/a.mid", None));
    assert!(is_item(&doc.items[1], "/m/b.MID", None));
    assert_eq!(doc.title, None);
}

#[test]
fn relative_and_home_paths_resolve() {
    let doc = read(
        "\u{feff}#VOXFONT:sf=fonts/one.sf2\nsub/a.mid\n../up.mid\n./c.mid\n",
        "/lists/evening",
    );
    assert_eq!(doc.items[0].midi, fs("/lists/evening/sub/a.mid"));
    assert_eq!(doc.items[0].soundfont, Some(fs("/lists/evening/fonts/one.sf2")));
    assert_eq!(doc.items[1].midi, fs("/lists/up.mid"));
    assert_eq!(doc.items[2].midi, fs("/lists/evening/c.mid"));

    let doc = read("~/midi/x.mid\n", "/lists");
    assert_eq!(doc.items[0].midi, fs("/home/me/midi/x.mid"));
}

#[test]
fn a_path_through_a_zip_file_is_an_archive_member() {
    let mut d = Disk::new();
    d.put("/d/songs.zip".to_string(), FileKind::File);
    // A directory that merely ends in .zip is still a directory.
    d.put("/d/dir.zip".to_string(), FileKind::Dir);

    let doc = parse("songs.zip/pop/popcorn.mid\ndir.zip/a.mid\n", "/d", &host(), &d);
    assert_eq!(doc.items[0].midi, zip("/d/songs.zip", "pop/popcorn.mid"));
    assert_eq!(doc.items[1].midi, fs("/d/dir.zip/a.mid"));
    // What has to be looked for on disk to tell.
    assert_eq!(disk_probes("songs.zip/pop/popcorn.mid", "/d", &host()), ["/d/songs.zip"]);
    assert!(disk_probes("pop/popcorn.mid", "/d", &host()).is_empty());
}

#[test]
fn title_and_header_are_read() {
    let doc = read(
        "#EXTM3U\n#PLAYLIST: Evening A/B \n# my notes\n\n# about a\n/m/a.mid\n",
        "/",
    );
    assert_eq!(doc.title.as_deref(), Some("Evening A/B"));
    // The comment before the blank line is the file's; the one after is the
    // first item's.
    assert_eq!(doc.header, vec!["# my notes"]);
    assert_eq!(doc.items[0].extra, vec!["# about a"]);
}

#[test]
fn lines_not_acted_on_are_counted_and_kept() {
    let doc = read(
        "#VOXFONT:sf=/s/lost.sf2\n\
         #VOXFONT:sf=/s/one.sf2\n\
         #EXTINF:123,Canyon\n\
         /m/a.mid\n\
         /music/song.mp3\n\
         #VOXFONT:sf=/s/readme.txt\n\
         /m/b.mid\n\
         #VOXFONT:sf=/s/dangling.sf2\n",
        "/",
    );
    assert_eq!(doc.items.len(), 2);
    // The first directive was superseded before it reached a track.
    assert_eq!(doc.items[0].soundfont, Some(fs("/s/one.sf2")));
    assert_eq!(doc.items[0].extra, vec!["#VOXFONT:sf=/s/lost.sf2", "#EXTINF:123,Canyon"]);
    // Not a MIDI file, and not a SoundFont: both kept, neither acted on.
    assert_eq!(doc.items[1].soundfont, None);
    assert_eq!(doc.items[1].extra, vec!["/music/song.mp3", "#VOXFONT:sf=/s/readme.txt"]);
    // A directive with no track after it.
    assert_eq!(doc.trailer, vec!["#VOXFONT:sf=/s/dangling.sf2"]);
    assert_eq!(doc.ignored, 4);
}

#[test]
fn a_font_directive_may_be_separated_from_its_track() {
    let doc = read("#VOXFONT:sf=/s/one.sf2\n\n# the good one\n/m/a.mid\n", "/");
    assert_eq!(doc.items[0].soundfont, Some(fs("/s/one.sf2")));
    assert_eq!(doc.ignored, 0);
}

#[test]
fn serialize_writes_relative_paths_below_the_file_and_absolute_elsewhere() {
    let h = host();
    let mut p = Playlist::default();
    p.push(fs("/lists/sub/a.mid"), Some(fs("/srv/one.sf2")), &h);
    p.push(fs("/elsewhere/b.mid"), None, &h);
    p.push(fs("/lists/#odd.mid"), None, &h);
    p.push(zip("/lists/songs.zip", "pop/c.mid"), None, &h);
    let text = p.serialize("/lists");
    assert_eq!(
        text,
        "#EXTM3U\n\
         #VOXFONT:sf=/srv/one.sf2\n\
         sub/a.mid\n\
         /elsewhere/b.mid\n\
         ./#odd.mid\n\
         songs.zip/pop/c.mid\n"
    );
}

#[test]
fn playlist_round_trips_through_serialize_and_parse() {
    let text = "#EXTM3U\n\
                #PLAYLIST:Evening\n\
                # top\n\
                \n\
                #EXTINF:1,x\n\
                #VOXFONT:sf=/s/one.sf2\n\
                /m/a.mid\n\
                rel/b.mid\n\
                # end\n";
    let doc = read(text, "/lists");
    let (p, ignored) =
        Playlist::load("/lists/x.m3u", Ok(text.to_string()), &host(), &Disk::new()).unwrap();
    assert_eq!(ignored, 0);
    let again = p.serialize("/lists");
    assert_eq!(again, text, "a canonical file is written back unchanged");
    let second = read(&again, "/lists");
    assert_eq!(second.title, doc.title);
    assert_eq!(second.header, doc.header);
    assert_eq!(second.trailer, doc.trailer);
    assert_eq!(second.ignored, doc.ignored);
    assert_eq!(second.items.len(), doc.items.len());
    for i in 0..doc.items.len() {
        assert_eq!(second.items[i].midi, doc.items[i].midi);
        assert_eq!(second.items[i].soundfont, doc.items[i].soundfont);
        assert_eq!(second.items[i].extra, doc.items[i].extra);
    }
}

#[test]
fn edits_mark_the_list_dirty_and_ids_follow_items() {
    let h = host();
    let mut p = Playlist::default();
    assert!(!p.is_dirty());
    p.push(fs("/m/a.mid"), None, &h);
    p.push(fs("/m/a.mid"), None, &h);
    p.push(fs("/m/b.mid"), Some(fs("/s/one.sf2")), &h);
    assert!(p.is_dirty());

    // Duplicates are distinct items with distinct identities.
    let (first, second) = (p.id_at(0).unwrap(), p.id_at(1).unwrap());
    assert_ne!(first, second);
    p.swap(0, 2);
    assert_eq!(p.position_of(first), Some(2));
    p.remove(2);
    assert_eq!(p.position_of(first), None);
    assert_eq!(p.position_of(second), Some(1));

    p.set_font(0, None, &h);
    assert_eq!(p.get(0).unwrap().soundfont, None);
    // Out of range is ignored rather than panicking.
    p.swap(0, 9);
    p.remove(9);
    p.set_font(9, None, &h);
    assert_eq!(p.len(), 2);
}

#[test]
fn playlist_saves_and_reloads_from_disk() {
    let h = host();
    let path = "/d/evening.m3u";
    let mut p = Playlist::default();
    assert!(p.save(&h).is_err(), "a new list has no file yet");
    p.push(fs("/d/a.mid"), None, &h);
    p.push(fs("/d/b.mid"), Some(fs("/d/one.sf2")), &h);
    let w = p.save_as(path, &h);
    assert_eq!(w.path, path);
    p.saved(w.path);
    assert!(!p.is_dirty());
    assert_eq!(p.name(), "evening.m3u");
    assert!(w.body.contains("\n#VOXFONT:sf=one.sf2\nb.mid\n"), "{}", w.body);

    let (again, ignored) = Playlist::load(path, Ok(w.body), &h, &Disk::new()).unwrap();
    assert_eq!(ignored, 0);
    assert_eq!(again.len(), 2);
    assert_eq!(again.get(0).unwrap().midi, fs("/d/a.mid"));
    assert_eq!(again.get(1).unwrap().soundfont, Some(fs("/d/one.sf2")));
    assert!(!again.is_dirty());
    let missing = Playlist::load("/d/missing.m3u", Err("no such file".to_string()), &h, &Disk::new());
    assert_eq!(missing.err().as_deref(), Some("Cannot read /d/missing.m3u: no such file"));
}

#[test]
fn rows_count_plays_through_the_font_the_item_uses() {
    let h = host();
    let d = Disk::new();
    let mut p = Playlist::default();
    p.push(fs("/m/a.mid"), Some(fs("/s/one.sf2")), &h);
    p.push(fs("/m/b.mid"), None, &h);
    let mut log = History::default();
    log.record(Some(fs("/m/a.mid")), Some(fs("/s/one.sf2")), 10, true);
    log.record(Some(fs("/m/b.mid")), Some(fs("/s/two.sf2")), 20, true);

    let rows = p.rows("", &log, &Some(fs("/s/two.sf2")), &d);
    assert_eq!(rows[0].plays, 1);
    assert_eq!(rows[1].plays, 1, "counted through the user's font");
    assert_eq!(rows[1].soundfont, None, "the row still says it has none");
    assert_eq!(p.rows("", &log, &None, &d)[1].plays, 0);

    assert_eq!(p.rows("B.MID", &log, &None, &d).len(), 1);
    assert_eq!(p.rows("b.mid", &log, &None, &d)[0].idxs, vec![1]);
}

#[test]
fn playlist_names_are_recognised() {
    assert!(is_playlist_name("a.m3u"));
    assert!(is_playlist_name("A.M3U8"));
    assert!(!is_playlist_name("a.mid"));
    assert!(!is_playlist_name("m3u"));
}

#[test]
fn paths_are_made_absolute_and_tidy() {
    let h = host();
    assert_eq!(absolute("a/../b.m3u", &h), "/work/b.m3u");
    assert_eq!(absolute("/x/./y.m3u", &h), "/x/y.m3u");
    assert_eq!(absolute("/../x.mid", &h), "/x.mid");
    assert_eq!(absolute("../../../x.mid", &h), "/x.mid");
    // What is pushed relative to the working directory is kept absolute.
    let mut p = Playlist::default();
    p.push(fs("a.mid"), Some(zip("z.zip", "x.sf2")), &h);
    assert_eq!(p.get(0).unwrap().midi, fs("/work/a.mid"));
    assert_eq!(p.get(0).unwrap().soundfont, Some(zip("/work/z.zip", "x.sf2")));
}

#[test]
fn pinning_the_same_font_again_is_no_change() {
    let h = host();
    let body = "#VOXFONT:sf=/s/one.sf2\n/m/a.mid\n";
    let (mut p, _) = Playlist::load("/l/a.m3u", Ok(body.to_string()), &h, &Disk::new()).unwrap();
    p.set_font(0, Some(fs("/s/one.sf2")), &h);
    assert!(!p.is_dirty());
    p.set_font(0, Some(fs("/s/two.sf2")), &h);
    assert!(p.is_dirty());
    assert_eq!(p.get(0).unwrap().soundfont, Some(fs("/s/two.sf2")));
}

#[test]
fn a_list_is_named_by_its_title_then_its_file() {
    let h = host();
    assert_eq!(Playlist::default().name(), "untitled");
    let (p, _) = Playlist::load("/l/a.m3u", Ok(String::new()), &h, &Disk::new()).unwrap();
    assert_eq!(p.name(), "a.m3u");
    let (p, _) =
        Playlist::load("/l/a.m3u", Ok("#PLAYLIST:Evening\n".to_string()), &h, &Disk::new()).unwrap();
    assert_eq!(p.name(), "Evening");
}

#[test]
fn a_directory_with_its_playlist_can_be_moved() {
    let h = host();
    let mut there = Disk::new();
    there.put("/old/z.zip".to_string(), FileKind::File);
    let body = "#VOXFONT:sf=fonts/f.sf2\na.mid\nz.zip/x/b.mid\n#c.mid\n./#d.mid\n/else/e.mid\n";
    let (p, _) = Playlist::load("/old/l.m3u", Ok(body.to_string()), &h, &there).unwrap();
    assert_eq!(p.get(1).unwrap().midi, zip("/old/z.zip", "x/b.mid"));
    let saved = p.save(&h).unwrap();
    let mut here = Disk::new();
    here.put("/new/place/z.zip".to_string(), FileKind::File);
    let (q, _) = Playlist::load("/new/place/l.m3u", Ok(saved.body), &h, &here).unwrap();
    assert_eq!(q.get(0).unwrap().midi, fs("/new/place/a.mid"));
    assert_eq!(q.get(0).unwrap().soundfont, Some(fs("/new/place/fonts/f.sf2")));
    assert_eq!(q.get(1).unwrap().midi, zip("/new/place/z.zip", "x/b.mid"));
    assert_eq!(q.get(2).unwrap().midi, fs("/new/place/#d.mid"));
    assert_eq!(q.get(3).unwrap().midi, fs("/else/e.mid"));
}

#[test]
fn no_line_of_another_player_is_lost() {
    let h = host();
    let body = "# top\n\n#EXTINF:3,tag\nsong.mp3\n/m/a.mid\n#VOXFONT:sf=nope.txt\n# last\n";
    let (mut p, ignored) = Playlist::load("/l/a.m3u", Ok(body.to_string()), &h, &Disk::new()).unwrap();
    assert_eq!(ignored, 2);
    p.push(fs("/m/b.mid"), None, &h);
    p.swap(0, 1);
    let saved = p.save(&h).unwrap();
    assert_eq!(
        saved.body,
        "#EXTM3U\n# top\n\n/m/b.mid\n#EXTINF:3,tag\nsong.mp3\n/m/a.mid\n\
         #VOXFONT:sf=nope.txt\n# last\n"
    );
}

#[test]
fn the_archives_of_a_playlist_are_known_before_it_is_read() {
    let h = host();
    let body = "\u{feff}#VOXFONT:sf=f.zip/x.sf2\na.zip/b.zip/c.mid\nplain.mid\n~/h.zip/d.mid\n";
    assert_eq!(
        file_probes(body, "/l", &h),
        ["/l/f.zip", "/l/a.zip", "/l/a.zip/b.zip", "/home/me/h.zip"]
    );
}

fn open(body: &str) -> Playlist {
    Playlist::load("/lists/x.m3u", Ok(body.to_string()), &host(), &Disk::new()).unwrap().0
}

fn listed(p: &Playlist) -> Vec<(Location, Option<Location>)> {
    (0..p.len())
        .map(|i| p.get(i).unwrap())
        .map(|i| (i.midi.clone(), i.soundfont.clone()))
        .collect()
}

fn pairs_of(items: &Vec<Item>) -> Vec<(Location, Option<Location>)> {
    items.iter().map(|i| (i.midi.clone(), i.soundfont.clone())).collect()
}

#[test]
fn a_superseded_directive_pins_nothing_once_its_item_is_unpinned() {
    let body = "#EXTM3U\n\
                #VOXFONT:sf=/s/old.sf2\n\
                #VOXFONT:sf=/s/mid.sf2\n\
                # a note\n\
                #VOXFONT:sf=/s/new.sf2\n\
                /m/a.mid\n\
                /m/b.mid\n";
    let mut p = open(body);
    assert_eq!(p.get(0).unwrap().soundfont, Some(fs("/s/new.sf2")));
    assert_eq!(
        p.get(0).unwrap().extra,
        ["#VOXFONT:sf=/s/old.sf2", "# a note", "#VOXFONT:sf=/s/mid.sf2"],
    );
    let text = p.serialize("/lists");
    assert_eq!(pairs_of(&read(&text, "/lists").items), listed(&p));

    p.set_font(0, None, &host());
    let text = p.serialize("/lists");
    assert_eq!(
        text,
        "#EXTM3U\n# a note\n/m/a.mid\n/m/b.mid\n\
         #VOXFONT:sf=/s/old.sf2\n#VOXFONT:sf=/s/mid.sf2\n",
    );
    let again = read(&text, "/lists");
    assert_eq!(pairs_of(&again.items), [(fs("/m/a.mid"), None), (fs("/m/b.mid"), None)]);
    assert_eq!(again.trailer, ["#VOXFONT:sf=/s/old.sf2", "#VOXFONT:sf=/s/mid.sf2"]);
}

#[test]
fn a_superseded_directive_in_the_header_pins_nothing() {
    let body = "#VOXFONT:sf=/s/old.sf2\n\
                #VOXFONT:sf=/s/new.sf2\n\
                # top\n\
                \n\
                /m/a.mid\n\
                /m/b.mid\n";
    let mut p = open(body);
    assert_eq!(p.get(0).unwrap().soundfont, Some(fs("/s/new.sf2")));
    p.remove(0);
    let text = p.serialize("/lists");
    assert_eq!(text, "#EXTM3U\n# top\n\n/m/b.mid\n#VOXFONT:sf=/s/old.sf2\n");
    assert_eq!(pairs_of(&read(&text, "/lists").items), [(fs("/m/b.mid"), None)]);
}

#[test]
fn a_directive_that_names_no_font_keeps_its_place() {
    // The second directive takes the place of the first and pins nothing.
    let body = "#EXTM3U\n#VOXFONT:sf=/s/old.sf2\n#VOXFONT:sf=/s/old.wav\n# note\n/m/a.mid\n";
    let p = open(body);
    assert_eq!(p.get(0).unwrap().soundfont, None);
    assert_eq!(p.serialize("/lists"), body);
}

#[test]
fn the_header_stays_at_the_top_where_it_pins_nothing() {
    // The first item is pinned: its directive takes the place of the one above.
    let body = "#EXTM3U\n\
                #VOXFONT:sf=/s/old.sf2\n\
                #VOXFONT:sf=/s/new.sf2\n\
                # top\n\
                \n\
                /m/a.mid\n\
                /m/b.mid\n";
    let p = open(body);
    let text = p.serialize("/lists");
    assert_eq!(
        text,
        "#EXTM3U\n#VOXFONT:sf=/s/old.sf2\n# top\n\n#VOXFONT:sf=/s/new.sf2\n/m/a.mid\n/m/b.mid\n",
    );
    assert_eq!(pairs_of(&read(&text, "/lists").items), listed(&p));
    // So it does where there is no item.
    let mut p = open(body);
    p.remove(0);
    p.remove(0);
    assert_eq!(p.serialize("/lists"), "#EXTM3U\n#VOXFONT:sf=/s/old.sf2\n# top\n\n");
    // And above a directive that names no SoundFont.
    let mut p = open(&format!("{body}#VOXFONT:sf=/s/x.wav\n/m/c.mid\n"));
    p.remove(0);
    p.remove(0);
    let text = p.serialize("/lists");
    assert_eq!(
        text,
        "#EXTM3U\n#VOXFONT:sf=/s/old.sf2\n# top\n\n#VOXFONT:sf=/s/x.wav\n/m/c.mid\n",
    );
    assert_eq!(pairs_of(&read(&text, "/lists").items), [(fs("/m/c.mid"), None)]);
}

#[test]
fn a_playlist_shows_and_writes_a_replacement_for_bytes_that_are_no_text() {
    let raw = join_pieces(&vec![Piece::Char('d'), Piece::Bytes(vec![0xff])]);
    let h = host();
    let mut p = Playlist::default();
    p.push(fs(&format!("/m/{raw}/a.mid")), None, &h);
    assert_eq!(p.get(0).unwrap().midi, fs(&format!("/m/{raw}/a.mid")));
    assert_eq!(p.serialize("/m"), "#EXTM3U\nd\u{fffd}/a.mid\n");
    assert_eq!(p.serialize("/x"), "#EXTM3U\n/m/d\u{fffd}/a.mid\n");
    let path = format!("/m/{raw}.m3u");
    let e = Playlist::load(&path, Err("gone".to_string()), &h, &Disk::new());
    assert_eq!(e.err().as_deref(), Some("Cannot read /m/d\u{fffd}.m3u: gone"));
    let (p, _) = Playlist::load(&path, Ok(String::new()), &h, &Disk::new()).unwrap();
    assert_eq!(p.name(), "d\u{fffd}.m3u");
    assert_eq!(p.path(), Some(&path));
}
