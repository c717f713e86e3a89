//! Locations, archives and paths.

use voxfont::paths::{
    below_base, extension_of, file_name_of, join_path, normalized, parent_of, parts_of, same_path,
};
use voxfont::text::{
    chars_of, contains, is_space_char, split_lines, split_once, strip_prefix, trimmed,
};
use voxfont::raw::{join_pieces, pieces_of, shown_text, Piece};
use voxfont::vfs::{
    read_dir, temp_suffix_of, Disk, DiskEntry, FileKind, Location, ZipCache, ZipIndex,
};

fn fs(p: &str) -> Location {
    Location::Fs(p.to_string())
}

fn zip(archive: &str, inner: &str) -> Location {
    Location::Zip { archive: archive.to_string(), inner: inner.to_string() }
}

fn cache(archive: &str, names: &[&str]) -> ZipCache {
    let mut c = ZipCache::new();
    let v: Vec<String> = names.iter().map(|n| n.to_string()).collect();
    c.add_archive(archive, &v);
    c
}

fn child_names(dir: &Location, cache: &ZipCache) -> Vec<(String, bool)> {
    let mut v: Vec<(String, bool)> =
        read_dir(dir, &vec![], cache, true).into_iter().map(|c| (c.name, c.is_dir)).collect();
    v.sort();
    v
}

#[test]
fn lists_zip_root_and_subdirs() {
    let z = "/d/songs.zip";
    // Note: "a/" has no explicit dir entry; it must be inferred from a/x.mid.
    let c = cache(z, &["a/x.mid", "a/b/y.mid", "top.mid", "empty/"]);
    assert_eq!(
        child_names(&zip(z, ""), &c),
        [
            ("a".to_string(), true),
            ("empty".to_string(), true),
            ("top.mid".to_string(), false),
        ]
    );
    assert_eq!(
        child_names(&zip(z, "a"), &c),
        [("b".to_string(), true), ("x.mid".to_string(), false)]
    );
    // Nothing is known of an archive that was not read.
    assert!(child_names(&zip("/d/other.zip", ""), &c).is_empty());
    assert!(c.holds(z));
    assert!(c.holds("/d//songs.zip"));
    assert!(!c.holds("/d/other.zip"));
}

#[test]
fn parent_navigates_out_of_archive() {
    let z = "/d/s.zip";
    assert_eq!(zip(z, "a/b").parent(), Some(zip(z, "a")));
    assert_eq!(zip(z, "a").parent(), Some(zip(z, "")));
    // Leaving the root drops back to the filesystem dir holding the archive.
    assert_eq!(zip(z, "").parent(), Some(fs("/d")));
    assert_eq!(fs("/d/x").parent(), Some(fs("/d")));
    assert_eq!(fs("/").parent(), None);
}

fn entry(name: &str, is_dir: bool, size: u64) -> DiskEntry {
    DiskEntry { name: name.to_string(), is_dir, size, length: None }
}

#[test]
fn fs_listing_shows_zip_as_directory() {
    let c = ZipCache::new();
    let dir = fs("/d");
    let here = vec![entry("bank.zip", false, 7), entry("sub", true, 0)];
    let z = read_dir(&dir, &here, &c, true).into_iter().find(|c| c.name == "bank.zip").unwrap();
    assert!(z.is_dir, "a .zip should be presented as a directory");
    assert_eq!(z.loc, zip("/d/bank.zip", ""));
    assert_eq!(z.size, 7);

    // With archives disabled (the SoundFont panel), the .zip is reported as an
    // ordinary file instead, so extension filtering can drop it.
    let z = read_dir(&dir, &here, &c, false).into_iter().find(|c| c.name == "bank.zip").unwrap();
    assert!(!z.is_dir);
    assert!(matches!(z.loc, Location::Fs(_)));
}

#[test]
fn children_are_located_in_their_directory() {
    let mut c = ZipCache::new();
    for dir in ["/d", "/d/", "/", "d", ".", ""] {
        let here = vec![entry("a.mid", false, 1), entry(".b", true, 0), entry("s.ZIP", false, 9)];
        let a = read_dir(&fs(dir), &here, &c, true);
        let b = read_dir(&fs(dir), &here, &c, false);
        for (x, y) in a.iter().zip(b.iter()) {
            assert_eq!(x.name, y.name);
            for e in [x, y] {
                assert_eq!(e.loc.parent(), Some(fs(dir)), "{dir}");
                assert_eq!(e.loc.file_name(), e.name);
            }
            assert_eq!(x.is_dir != y.is_dir, x.name == "s.ZIP");
        }
        assert_eq!(a[2].loc, zip(&join_path(dir, "s.ZIP"), ""));
        assert_eq!(b[2].loc, fs(&join_path(dir, "s.ZIP")));
        // A real directory of that name is one either way.
        let real = vec![entry("s.zip", true, 0)];
        assert_eq!(read_dir(&fs(dir), &real, &c, true)[0].loc, fs(&join_path(dir, "s.zip")));
    }
    c.add_archive("/d/s.zip", &vec!["x/y/a.mid".to_string(), "b.mid".to_string()]);
    for inner in ["", "x", "x/y"] {
        let dir = zip("/d/s.zip", inner);
        let all = read_dir(&dir, &vec![], &c, true);
        assert!(!all.is_empty());
        for e in &all {
            assert_eq!(e.loc.parent(), Some(dir.clone()));
            assert_eq!(e.loc.file_name(), e.name);
        }
    }
}

#[test]
fn a_temporary_file_keeps_the_extension() {
    assert_eq!(temp_suffix_of("dir/song.mid"), ".mid");
    assert_eq!(temp_suffix_of("dir/song"), "");
}

#[test]
fn encode_decode_round_trips() {
    let cases = [
        fs("/home/me/midi"),
        zip("/m/songs.zip", "dir/a.mid"),
        // Archive root: empty inner.
        zip("/m/songs.zip", ""),
    ];
    for loc in cases {
        assert_eq!(Location::decode(&loc.encode()), loc, "{loc:?}");
    }
    // A plain path (as written by older versions) decodes to Fs.
    assert_eq!(Location::decode("/old/style/path"), fs("/old/style/path"));
}

#[test]
fn file_name_and_display() {
    let loc = zip("/m/songs.zip", "a/b/y.mid");
    assert_eq!(loc.file_name(), "y.mid");
    assert_eq!(loc.display(), "/m/songs.zip:/a/b/y.mid");
    assert_eq!(zip("/m/songs.zip", "").file_name(), "songs.zip");
    assert_eq!(fs("/m/a.mid").file_name(), "a.mid");
    assert_eq!(fs("/m/a.mid").display(), "/m/a.mid");
}

#[test]
fn a_member_is_there_when_its_archive_is_a_file() {
    let mut d = Disk::new();
    d.put("/m/z.zip".to_string(), FileKind::File);
    d.put("/m/dir.zip".to_string(), FileKind::Dir);
    d.put("/m/pipe".to_string(), FileKind::Other);
    assert!(zip("/m/z.zip", "x.mid").is_present(&d));
    assert!(zip("/m/z.zip", "").is_openable_dir(&d));
    assert!(!zip("/m/dir.zip", "x.mid").is_present(&d));
    assert!(fs("/m/pipe").is_present(&d));
    assert!(!fs("/m/pipe").is_openable_dir(&d));
    assert!(fs("/m/dir.zip").is_openable_dir(&d));
    assert!(!fs("/m/none").is_present(&d));
    assert!(d.is_file("/m/z.zip") && !d.is_dir("/m/z.zip"));
    // The last word on a path counts.
    d.put("/m/z.zip".to_string(), FileKind::Dir);
    assert!(d.is_dir("/m/z.zip"));
    assert_eq!(zip("/m/z.zip", "a").fs_dir(), "/m");
    assert_eq!(zip("/m/z.zip", "a").disk_path(), "/m/z.zip");
    assert_eq!(fs("/m/a.mid").as_fs().as_deref(), Some("/m/a.mid"));
    assert_eq!(zip("/m/songs.zip", "").as_fs().as_deref(), Some("/m"));
    assert!(zip("/m/z.zip", "a").as_fs().is_none());
}

#[test]
fn locations_are_the_same_by_their_components() {
    assert_eq!(fs("/m//a.mid"), fs("/m/a.mid"));
    assert_eq!(fs("/m/./a.mid"), fs("/m/a.mid"));
    assert_ne!(fs("/m/../a.mid"), fs("/a.mid"));
    assert_ne!(zip("/m/z.zip", "a"), zip("/m/z.zip", "a/"));
    assert_ne!(fs("/m/z.zip"), zip("/m/z.zip", ""));
}

#[test]
fn an_index_survives_odd_member_names() {
    let names: Vec<String> =
        ["/lead.mid", "a//b.mid", "a/", "", "/"].iter().map(|s| s.to_string()).collect();
    let _ = ZipIndex::build(&names);
    let c = cache("/z.zip", &["/lead.mid", "a//b.mid", "a/", "", "/"]);
    let root = child_names(&zip("/z.zip", ""), &c);
    assert!(root.contains(&("a".to_string(), true)), "{root:?}");
}

// --- paths ------------------------------------------------------------------

#[test]
fn paths_split_into_components() {
    assert_eq!(parent_of("/a/b").as_deref(), Some("/a"));
    assert_eq!(parent_of("/").as_deref(), None);
    assert_eq!(parent_of("a").as_deref(), Some(""));
    assert_eq!(file_name_of("/a/b.mid").as_deref(), Some("b.mid"));
    assert_eq!(file_name_of("/a/..").as_deref(), None);
    assert_eq!(file_name_of("/").as_deref(), None);
    assert_eq!(extension_of("b.MID").as_deref(), Some("MID"));
    assert_eq!(extension_of(".hidden").as_deref(), None);
    assert_eq!(extension_of("a.").as_deref(), Some(""));
    assert_eq!(join_path("/a", "b"), "/a/b");
    assert_eq!(join_path("/a/", "b"), "/a/b");
    assert_eq!(join_path("/a", "/b"), "/b");
    assert_eq!(normalized("/a/./b/../c"), "/a/c");
    // Directly under the root there is nothing to go up to.
    assert_eq!(normalized("/../a"), "/a");
    assert_eq!(normalized("/a/../../../b"), "/b");
    // In front of a relative path every step up counts.
    assert_eq!(normalized("../../x.mid"), "../../x.mid");
    assert_eq!(normalized("a/../../x.mid"), "../x.mid");
    assert!(same_path("/a//b/", "/a/b"));
    assert!(!same_path("/a/b", "a/b"));
    assert_eq!(below_base(&parts_of("/l/sub/a.mid"), &parts_of("/l")).as_deref(), Some("sub/a.mid"));
    assert_eq!(below_base(&parts_of("/k/a.mid"), &parts_of("/l")).as_deref(), None);
}

// --- text -------------------------------------------------------------------

#[test]
fn white_space_is_what_unicode_says() {
    let mut n: u32 = 0;
    while n <= 0x10_FFFF {
        if let Some(c) = char::from_u32(n) {
            assert_eq!(is_space_char(c), c.is_whitespace(), "{n:x}");
        }
        n += 1;
    }
}

#[test]
fn text_is_split_trimmed_and_searched() {
    assert_eq!(trimmed("\u{3000} a b\t\n"), "a b");
    assert_eq!(split_lines("a\r\nb\n\nc"), ["a", "b", "", "c"]);
    assert_eq!(split_lines("a\n"), ["a"]);
    assert!(split_lines("").is_empty());
    assert_eq!(split_once("k = v = w", '='), Some(("k ".to_string(), " v = w".to_string())));
    assert_eq!(split_once("none", '='), None);
    assert!(contains("canyon.mid", "yon"));
    assert!(contains("x", ""));
    assert!(!contains("x", "xy"));
    assert_eq!(strip_prefix("~/a", "~/").as_deref(), Some("a"));
    assert_eq!(strip_prefix("a", "~/"), None);
    assert_eq!(chars_of("é≡"), ['é', '≡']);
}

fn bytes(b: &[u8]) -> Piece {
    Piece::Bytes(b.to_vec())
}

#[test]
fn a_path_keeps_bytes_that_are_no_text() {
    // "a\xff\xfe" and "a\xff" are two names that show alike.
    let one = join_pieces(&vec![Piece::Char('a'), bytes(&[0xff]), bytes(&[0xfe])]);
    let two = join_pieces(&vec![Piece::Char('a'), bytes(&[0xff, 0xfe])]);
    let three = join_pieces(&vec![Piece::Char('a'), bytes(&[0xe9])]);
    assert_eq!(shown_text(&one), "a\u{fffd}\u{fffd}");
    assert_eq!(shown_text(&two), "a\u{fffd}");
    assert_eq!(shown_text(&three), "a\u{fffd}");
    assert_ne!(two, three);
    match &pieces_of(&three)[..] {
        [Piece::Char('a'), Piece::Bytes(b)] => assert_eq!(b, &vec![0xe9]),
        other => panic!("{other:?}"),
    }
    // Any other text is shown as it is.
    for s in ["", "é", "/a/b.mid", "a\u{fffd}", "\0", "\0a\0", "\0\0", "x\0é"] {
        assert_eq!(shown_text(s), s);
        assert_eq!(join_pieces(&pieces_of(s)), s);
    }
}

#[test]
fn a_name_that_is_no_text_is_shown_with_a_replacement_and_can_be_entered() {
    let raw = join_pieces(&vec![Piece::Char('d'), bytes(&[0xff])]);
    let c = ZipCache::new();
    let here = vec![entry(&raw, true, 0)];
    let d = &read_dir(&fs("/m"), &here, &c, true)[0];
    assert_eq!(d.name, "d\u{fffd}");
    assert_eq!(d.loc, fs(&join_path("/m", &raw)));
    assert_ne!(d.loc, fs("/m/d\u{fffd}"));
    assert_eq!(d.loc.file_name(), "d\u{fffd}");
    assert_eq!(d.loc.display(), "/m/d\u{fffd}");
    // The files that are written hold the text that is shown.
    assert_eq!(d.loc.encode(), "/m/d\u{fffd}");
    let inside = &read_dir(&d.loc, &vec![entry("a.mid", false, 1)], &c, true)[0];
    assert_eq!(inside.loc.parent(), Some(d.loc.clone()));
    assert_eq!(inside.loc.display(), "/m/d\u{fffd}/a.mid");
    // An archive of such a name is entered too.
    let zipped = join_pieces(&vec![bytes(&[0x80]), Piece::Char('.'), Piece::Char('Z'),
        Piece::Char('i'), Piece::Char('p')]);
    let z = &read_dir(&fs("/m"), &vec![entry(&zipped, false, 3)], &c, true)[0];
    assert!(z.is_dir);
    assert_eq!(z.loc, zip(&join_path("/m", &zipped), ""));
    assert_eq!(z.loc.display(), "/m/\u{fffd}.Zip:/");
}
