//! The history, the favourites and the saved session.

use voxfont::calendar::{civil_from_days, fmt_age, fmt_stamp_at};
use voxfont::favourites;
use voxfont::favourites::{Fav, Favourites};
use voxfont::history;
use voxfont::history::{Entry, History, View};
use voxfont::host::Host;
use voxfont::state;
use voxfont::state::State;
use voxfont::vfs::{Disk, FileKind, Location};

fn fs(p: &str) -> Location {
    Location::Fs(p.to_string())
}

fn zip(archive: &str, inner: &str) -> Location {
    Location::Zip { archive: archive.to_string(), inner: inner.to_string() }
}

fn some(p: &str) -> Option<Location> {
    Some(fs(p))
}

fn host() -> Host {
    Host { home: Some("/home/me".to_string()), xdg_config: None, cwd: Some("/work".to_string()) }
}

/// Two records or two stars are the same when all their fields are.
fn same_entry(a: &Entry, b: &Entry) -> bool {
    a.midi == b.midi && a.soundfont == b.soundfont && a.when == b.when && a.plays == b.plays
}

fn same_fav(a: &Fav, b: &Fav) -> bool {
    a.midi == b.midi && a.soundfont == b.soundfont && a.added == b.added
}

// --- favourites -------------------------------------------------------------

#[test]
fn toggle_stars_then_unstars() {
    let mut f = Favourites::default();
    assert!(f.toggle(fs("/m/a.mid"), fs("/s/one.sf2"), 100));
    assert_eq!(f.len(), 1);
    assert!(f.is_pair(&fs("/m/a.mid"), &fs("/s/one.sf2")));

    // The same pair again takes the star back off.
    assert!(!f.toggle(fs("/m/a.mid"), fs("/s/one.sf2"), 200));
    assert!(f.is_empty());
    assert!(!f.is_pair(&fs("/m/a.mid"), &fs("/s/one.sf2")));
    assert!(!f.has_track(&fs("/m/a.mid")));
}

#[test]
fn same_track_through_two_fonts_is_two_favourites() {
    let mut f = Favourites::default();
    f.toggle(fs("/m/a.mid"), fs("/s/one.sf2"), 100);
    f.toggle(fs("/m/a.mid"), fs("/s/two.sf2"), 200);
    assert_eq!(f.len(), 2);
    // Both pairs are starred, and the track is starred either way.
    assert!(f.is_pair(&fs("/m/a.mid"), &fs("/s/one.sf2")));
    assert!(f.is_pair(&fs("/m/a.mid"), &fs("/s/two.sf2")));
    assert!(f.has_track(&fs("/m/a.mid")));
    // A third font is not starred, though the track and font each are.
    assert!(!f.is_pair(&fs("/m/a.mid"), &fs("/s/three.sf2")));
    assert!(f.has_font(&fs("/s/two.sf2")));
    assert!(!f.has_font(&fs("/s/three.sf2")));
}

#[test]
fn new_stars_go_to_the_end_of_the_playlist() {
    let mut f = Favourites::default();
    f.toggle(fs("/m/a.mid"), fs("/s/one.sf2"), 100);
    f.toggle(fs("/m/b.mid"), fs("/s/one.sf2"), 200);
    f.toggle(fs("/m/c.mid"), fs("/s/one.sf2"), 300);
    let names: Vec<String> = (0..f.len()).map(|i| f.get(i).unwrap().midi.file_name()).collect();
    assert_eq!(names, ["a.mid", "b.mid", "c.mid"]);
    assert_eq!(f.position_of(&fs("/m/b.mid"), &fs("/s/one.sf2")), Some(1));
    assert_eq!(f.position_of(&fs("/m/z.mid"), &fs("/s/one.sf2")), None);
}

#[test]
fn swap_reorders_and_remove_drops_one() {
    let mut f = Favourites::default();
    f.toggle(fs("/m/a.mid"), fs("/s/one.sf2"), 100);
    f.toggle(fs("/m/b.mid"), fs("/s/one.sf2"), 200);
    f.swap(0, 1);
    assert_eq!(f.get(0).unwrap().midi.file_name(), "b.mid");
    // Out-of-range and no-op swaps are ignored rather than panicking.
    f.swap(0, 9);
    f.swap(1, 1);
    assert_eq!(f.len(), 2);

    f.remove(0);
    assert_eq!(f.len(), 1);
    assert_eq!(f.get(0).unwrap().midi.file_name(), "a.mid");
    // The indexes follow the removal.
    assert!(!f.has_track(&fs("/m/b.mid")));
    f.remove(7);
    assert_eq!(f.len(), 1);
}

#[test]
fn rows_join_play_counts_from_the_history() {
    let mut f = Favourites::default();
    f.toggle(fs("/m/a.mid"), fs("/s/one.sf2"), 100);
    f.toggle(fs("/m/b.mid"), fs("/s/one.sf2"), 200);

    let mut h = History::default();
    h.record(some("/m/a.mid"), some("/s/one.sf2"), 500, true);
    h.record(some("/m/a.mid"), some("/s/one.sf2"), 600, true);

    let rows = f.rows("", &h, &Disk::new());
    assert_eq!(rows.len(), 2);
    // List order, not history order.
    assert_eq!(rows[0].midi, some("/m/a.mid"));
    assert_eq!(rows[0].plays, 2);
    assert_eq!(rows[0].when, 100, "the row's time is when it was starred");
    // Starred but never played: no count of its own to show.
    assert_eq!(rows[1].plays, 0);
    assert_eq!(rows[1].idxs, vec![1]);
}

#[test]
fn rows_filter_matches_either_name_case_insensitively() {
    let mut f = Favourites::default();
    f.toggle(fs("/m/CANYON.MID"), fs("/s/one.sf2"), 100);
    f.toggle(fs("/m/popcorn.mid"), fs("/s/Roland.sf2"), 200);
    let h = History::default();
    let d = Disk::new();

    assert_eq!(f.rows("canyon", &h, &d).len(), 1);
    assert_eq!(f.rows("roland", &h, &d).len(), 1);
    assert_eq!(f.rows("sf2", &h, &d).len(), 2);
    assert!(f.rows("nothing", &h, &d).is_empty());
    // A filtered row still knows its index in the full list.
    assert_eq!(f.rows("popcorn", &h, &d)[0].idxs, vec![1]);
}

#[test]
fn favourites_round_trips_through_serialize_and_parse() {
    let entries = vec![
        Fav {
            midi: zip("/m/songs.zip", "classics/canyon.mid"),
            soundfont: fs("/s/one.sf2"),
            added: 1_758_067_400,
        },
        Fav {
            midi: fs("/m/b.mid"),
            soundfont: zip("/s/banks.zip", "gm/font.sf2"),
            added: 1_758_060_000,
        },
    ];
    // Order is preserved exactly: it is the playlist.
    let again = favourites::parse(&favourites::serialize(&entries, &vec![7200, -3600]));
    assert_eq!(again.len(), entries.len());
    for i in 0..entries.len() {
        assert!(same_fav(&again[i], &entries[i]), "{:?}", again[i]);
    }
}

#[test]
fn parse_skips_half_pairs_junk_and_unknown_keys() {
    let text = "\
# a comment

[fav]
added = 100
midi = /m/a.mid
sf = /s/one.sf2
rating = 5

[fav]
added = 200
midi = /m/no-font.mid

[fav]
added = 300
sf = /s/no-track.sf2

[fav]
midi = /m/c.mid
sf = /s/two.sf2
";
    let got = favourites::parse(text);
    // Only the complete pairs survive; the two half-records are dropped.
    assert_eq!(got.len(), 2);
    assert_eq!(got[0].midi, fs("/m/a.mid"));
    assert_eq!(got[0].added, 100);
    assert_eq!(got[1].midi, fs("/m/c.mid"));
    assert_eq!(got[1].added, 0, "a missing timestamp is not fatal");
    assert!(favourites::parse("").is_empty());
}

#[test]
fn saves_and_reloads_from_disk_in_order() {
    let path = "/c/favourites.conf";
    let mut f = Favourites::load_at(path.to_string(), None);
    assert!(f.is_empty(), "a missing file starts an empty list");
    assert!(f.save(&vec![]).is_none(), "nothing to write yet");
    f.toggle(fs("/m/a.mid"), fs("/s/one.sf2"), 1_758_067_400);
    f.toggle(fs("/m/b.mid"), fs("/s/two.sf2"), 1_758_067_500);
    let w = f.save(&vec![0, 0]).expect("unsaved stars");
    f.saved();
    assert_eq!(w.path, path);
    assert!(f.save(&vec![0, 0]).is_none(), "written once");

    let again = Favourites::load_at(path.to_string(), Some(w.body));
    assert_eq!(again.len(), 2);
    assert_eq!(again.get(0).unwrap().midi.file_name(), "a.mid");
    // The membership indexes are rebuilt on load, not just on toggle.
    assert!(again.is_pair(&fs("/m/b.mid"), &fs("/s/two.sf2")));
}

#[test]
fn a_reorder_survives_a_reload() {
    let path = "/c/favourites.conf";
    let mut f = Favourites::load_at(path.to_string(), None);
    f.toggle(fs("/m/a.mid"), fs("/s/one.sf2"), 100);
    f.toggle(fs("/m/b.mid"), fs("/s/one.sf2"), 200);
    f.save(&vec![0, 0]);
    f.saved();
    f.swap(0, 1);
    let w = f.save(&vec![0, 0]).expect("a reorder is a change");

    let again = Favourites::load_at(path.to_string(), Some(w.body));
    assert_eq!(again.get(0).unwrap().midi.file_name(), "b.mid");
    assert_eq!(again.get(1).unwrap().midi.file_name(), "a.mid");
}

#[test]
fn in_memory_store_never_writes() {
    let mut f = Favourites::default();
    f.toggle(fs("/m/a.mid"), fs("/s/one.sf2"), 100);
    assert!(f.save(&vec![0]).is_none()); // no path: must be a no-op, not a panic
    assert_eq!(f.len(), 1);
}

#[test]
fn the_favourites_file_reads_as_documented() {
    let f = vec![Fav { midi: fs("/m/a.mid"), soundfont: fs("/s/one.sf2"), added: 0 }];
    let body = favourites::serialize(&f, &vec![0]);
    assert!(body.starts_with("# voxfont favourites v1\n"), "{body}");
    assert!(body.contains("[fav]\n"), "{body}");
    assert!(body.contains("1970-01-01"), "{body}");
    assert!(body.contains("\nmidi = /m/a.mid\n"), "{body}");
    assert!(body.contains("\nsf = /s/one.sf2\n"), "{body}");
}

#[test]
fn stores_load_from_the_configuration_directory() {
    let h = host();
    assert_eq!(h.history_path().as_deref(), Some("/home/me/.config/voxfont/history.conf"));
    assert_eq!(h.favourites_path().as_deref(), Some("/home/me/.config/voxfont/favourites.conf"));
    assert_eq!(h.config_path().as_deref(), Some("/home/me/.config/voxfont/state.conf"));
    let f = Favourites::load(None);
    assert!(f.is_empty());
    let f = Favourites::load(Some((
        "/c/f".to_string(),
        Some("[fav]\nmidi = /m/a.mid\nsf = /s/b.sf2\n".to_string()),
    )));
    assert_eq!(f.len(), 1);
    let h = History::load(Some((
        "/c/h".to_string(),
        Some("[play]\nwhen = 7\nsf = /s/b.sf2\n".to_string()),
    )));
    assert_eq!(h.len(), 1);
    assert!(History::load(None).is_empty());
}

// --- history ----------------------------------------------------------------

fn names(h: &History) -> Vec<String> {
    h.rows(View::Pairs, "", &Disk::new())
        .iter()
        .map(|r| r.midi.as_ref().unwrap().file_name())
        .collect()
}

#[test]
fn newest_first_and_one_record_per_combination() {
    let mut h = History::default();
    h.record(some("/m/a.mid"), some("/s/one.sf2"), 100, true);
    h.record(some("/m/b.mid"), some("/s/one.sf2"), 200, true);
    // Same track, different font: a separate record.
    h.record(some("/m/a.mid"), some("/s/two.sf2"), 300, true);
    assert_eq!(h.len(), 3);
    assert_eq!(names(&h), ["a.mid", "b.mid", "a.mid"]);

    // Replaying an old combination moves it to the top and counts the play.
    h.record(some("/m/a.mid"), some("/s/one.sf2"), 400, true);
    assert_eq!(h.len(), 3);
    let top = &h.rows(View::Pairs, "", &Disk::new())[0];
    assert_eq!(top.when, 400);
    assert_eq!(top.plays, 2);
    assert_eq!(top.soundfont.as_ref().unwrap().file_name(), "one.sf2");
}

#[test]
fn newest_stays_on_top_even_out_of_order() {
    let mut h = History::default();
    h.record(some("/m/a.mid"), some("/s/one.sf2"), 300, true);
    // An older play recorded afterwards (a clock that went backwards) must not
    // end up above it.
    h.record(some("/m/b.mid"), some("/s/one.sf2"), 100, true);
    let whens: Vec<u64> = h.rows(View::Pairs, "", &Disk::new()).iter().map(|r| r.when).collect();
    assert_eq!(whens, [300, 100]);
}

#[test]
fn uncounted_replay_refreshes_time_only() {
    let mut h = History::default();
    h.record(some("/m/a.mid"), some("/s/one.sf2"), 100, true);
    // A repeat-mode loop of the same track: newer, but not a new play.
    h.record(some("/m/a.mid"), some("/s/one.sf2"), 160, false);
    let top = &h.rows(View::Pairs, "", &Disk::new())[0];
    assert_eq!((top.when, top.plays), (160, 1));
}

#[test]
fn nothing_to_remember_is_not_recorded() {
    let mut h = History::default();
    h.record(None, None, 100, true);
    assert!(h.is_empty());
}

#[test]
fn grouped_views_summarise_the_log() {
    let d = Disk::new();
    let mut h = History::default();
    h.record(some("/m/a.mid"), some("/s/one.sf2"), 100, true);
    h.record(some("/m/b.mid"), some("/s/two.sf2"), 200, true);
    h.record(some("/m/a.mid"), some("/s/two.sf2"), 300, true);
    // A SoundFont loaded with nothing playing: no track.
    h.record(None, some("/s/three.sf2"), 400, true);

    // Tracks: newest first, one row per file, plays summed across fonts, showing
    // the font it was last heard through.
    let tracks = h.rows(View::Tracks, "", &d);
    assert_eq!(tracks.len(), 2);
    assert_eq!(tracks[0].midi.as_ref().unwrap().file_name(), "a.mid");
    assert_eq!(tracks[0].soundfont.as_ref().unwrap().file_name(), "two.sf2");
    assert_eq!(tracks[0].plays, 2);
    assert_eq!(tracks[0].idxs.len(), 2, "row stands for both its entries");
    assert_eq!(tracks[1].midi.as_ref().unwrap().file_name(), "b.mid");

    // Fonts: the font-only record appears here but not in Tracks.
    let fonts = h.rows(View::Fonts, "", &d);
    let names: Vec<String> =
        fonts.iter().map(|r| r.soundfont.as_ref().unwrap().file_name()).collect();
    assert_eq!(names, ["three.sf2", "two.sf2", "one.sf2"]);
}

#[test]
fn filter_matches_either_name_case_insensitively() {
    let d = Disk::new();
    let mut h = History::default();
    h.record(some("/m/CANYON.MID"), some("/s/one.sf2"), 100, true);
    h.record(some("/m/popcorn.mid"), some("/s/Roland.sf2"), 200, true);

    assert_eq!(h.rows(View::Pairs, "canyon", &d).len(), 1);
    assert_eq!(h.rows(View::Pairs, "roland", &d).len(), 1);
    assert_eq!(h.rows(View::Pairs, "sf2", &d).len(), 2);
    assert!(h.rows(View::Pairs, "nothing", &d).is_empty());
}

#[test]
fn a_filter_lowers_letters_beyond_ascii() {
    let d = Disk::new();
    let mut h = History::default();
    h.record(some("/m/ÉTUDE.mid"), some("/s/one.sf2"), 100, true);
    assert_eq!(h.rows(View::Pairs, "étude", &d).len(), 1);
    assert_eq!(h.rows(View::Pairs, "  ÉTude ", &d).len(), 1);
    assert!(h.rows(View::Pairs, "etude", &d).is_empty());
}

#[test]
fn forget_removes_every_entry_behind_a_row() {
    let d = Disk::new();
    let mut h = History::default();
    h.record(some("/m/a.mid"), some("/s/one.sf2"), 100, true);
    h.record(some("/m/b.mid"), some("/s/one.sf2"), 200, true);
    h.record(some("/m/a.mid"), some("/s/two.sf2"), 300, true);

    let row = h.rows(View::Tracks, "", &d)[0].clone(); // a.mid, both fonts
    h.forget(&row.idxs);
    assert_eq!(h.len(), 1);
    assert_eq!(names(&h), ["b.mid"]);

    h.clear();
    assert!(h.is_empty());
}

#[test]
fn forget_takes_positions_in_any_order_and_number() {
    let mut h = History::default();
    for (i, n) in ["a", "b", "c", "d"].iter().enumerate() {
        h.record(some(&format!("/m/{n}.mid")), None, 100 + i as u64, true);
    }
    assert_eq!(names(&h), ["d.mid", "c.mid", "b.mid", "a.mid"]);
    // Positions are those of the list as it stands, however often given.
    h.forget(&vec![2, 0, 0, 2, 9]);
    assert_eq!(names(&h), ["c.mid", "a.mid"]);
    h.forget(&vec![]);
    h.forget(&vec![2, 7]);
    assert_eq!(names(&h), ["c.mid", "a.mid"]);
    h.forget(&vec![1, 1]);
    assert_eq!(names(&h), ["c.mid"]);
}

#[test]
fn history_round_trips_through_serialize_and_parse() {
    let entries = vec![
        Entry {
            midi: Some(zip("/m/songs.zip", "classics/canyon.mid")),
            soundfont: some("/s/one.sf2"),
            when: 1_758_067_400,
            plays: 3,
        },
        // A SoundFont loaded with nothing playing.
        Entry {
            midi: None,
            soundfont: Some(zip("/s/banks.zip", "gm/font.sf2")),
            when: 1_758_060_000,
            plays: 1,
        },
    ];
    let again = history::parse(&history::serialize(&entries, &vec![0, 3600]));
    assert_eq!(again.len(), entries.len());
    for i in 0..entries.len() {
        assert!(same_entry(&again[i], &entries[i]), "{:?}", again[i]);
    }
}

#[test]
fn parse_skips_junk_unknown_keys_and_incomplete_records() {
    let text = "\
# a comment

[play]
when = 100
plays = 2
midi = /m/a.mid
sf = /s/one.sf2
future_field = whatever

[play]
sf = /s/two.sf2

[play]
when = 300
sf = /s/three.sf2
";
    let got = history::parse(text);
    // The middle record has no timestamp, so it is dropped.
    assert_eq!(got.len(), 2);
    assert_eq!(got[0].midi, some("/m/a.mid"));
    assert_eq!(got[0].plays, 2);
    assert_eq!(got[1].soundfont, some("/s/three.sf2"));
    assert_eq!(got[1].plays, 1, "missing plays defaults to one");
    assert!(history::parse("").is_empty());
}

#[test]
fn history_saves_and_reloads_from_disk() {
    let path = "/c/history.conf";
    let mut h = History::load_at(path.to_string(), None);
    assert!(h.is_empty(), "a missing file starts an empty history");
    h.record(some("/m/a.mid"), some("/s/one.sf2"), 1_758_067_400, true);
    assert_eq!(h.times(), vec![1_758_067_400]);
    let w = h.save(&vec![0]).expect("an unsaved play");
    h.saved();
    assert!(h.save(&vec![0]).is_none());

    let again = History::load_at(path.to_string(), Some(w.body));
    assert_eq!(again.len(), 1);
    assert_eq!(again.rows(View::Pairs, "", &Disk::new())[0].when, 1_758_067_400);
}

#[test]
fn in_memory_history_never_writes() {
    let mut h = History::default();
    h.record(some("/m/a.mid"), some("/s/one.sf2"), 100, true);
    assert!(h.save(&vec![0]).is_none()); // no path: must be a no-op, not a panic
    assert_eq!(h.len(), 1);
}

#[test]
fn a_row_is_gone_when_a_side_of_it_is_missing() {
    let mut d = Disk::new();
    d.put("/m/a.mid".to_string(), FileKind::File);
    d.put("/s/one.sf2".to_string(), FileKind::File);
    d.put("/m/z.zip".to_string(), FileKind::File);
    let mut h = History::default();
    h.record(some("/m/a.mid"), some("/s/one.sf2"), 300, true);
    h.record(some("/m/a.mid"), some("/s/two.sf2"), 200, true);
    h.record(Some(zip("/m/z.zip", "x.mid")), some("/s/one.sf2"), 100, true);
    let gone: Vec<bool> = h.rows(View::Pairs, "", &d).iter().map(|r| r.gone).collect();
    assert_eq!(gone, [false, true, false]);
    assert_eq!(h.plays_of(&fs("/m/a.mid"), &fs("/s/one.sf2")), 1);
    assert_eq!(h.plays_of(&fs("/m/b.mid"), &fs("/s/one.sf2")), 0);
}

#[test]
fn plays_stop_counting_at_the_largest_number() {
    let body = "[play]\nwhen = 1\nplays = 4294967295\nsf = /s/a.sf2\n";
    let mut h = History::load_at("/c/h".to_string(), Some(body.to_string()));
    h.record(None, some("/s/a.sf2"), 2, true);
    assert_eq!(h.rows(View::Pairs, "", &Disk::new())[0].plays, u32::MAX);
}

#[test]
fn the_views_come_round() {
    assert_eq!(View::Pairs.next(), View::Tracks);
    assert_eq!(View::Tracks.next(), View::Fonts);
    assert_eq!(View::Fonts.next(), View::Pairs);
    assert_eq!(View::Pairs.title(), "recent");
    assert_eq!(View::Tracks.title(), "tracks");
    assert_eq!(View::Fonts.title(), "soundfonts");
}

// --- times ------------------------------------------------------------------

#[test]
fn stamps_are_absolute_and_offset_aware() {
    assert_eq!(fmt_stamp_at(0, 0, true), "1970-01-01 00:00:00");
    assert_eq!(fmt_stamp_at(1_758_067_400, 0, false), "2025-09-17 00:03");
    // +2h offset shifts the clock, and a negative offset can cross midnight.
    assert_eq!(fmt_stamp_at(1_758_067_400, 7200, false), "2025-09-17 02:03");
    assert_eq!(fmt_stamp_at(1_758_067_400, -3600, false), "2025-09-16 23:03");
    // Leap day, to exercise the civil-date arithmetic.
    assert_eq!(fmt_stamp_at(1_709_164_800, 0, false), "2024-02-29 00:00");
}

#[test]
fn ages_read_naturally() {
    assert_eq!(fmt_age(1000, 1000), "just now");
    assert_eq!(fmt_age(1000, 950), "just now");
    assert_eq!(fmt_age(1000, 400), "10 min ago");
    assert_eq!(fmt_age(100_000, 20_000), "22 h ago");
    // Just past a day, the unit changes.
    assert_eq!(fmt_age(100_000, 10_000), "1 d ago");
    assert_eq!(fmt_age(1_000_000, 100_000), "10 d ago");
    // A clock that jumped backwards must not panic.
    assert_eq!(fmt_age(100, 500), "just now");
}

#[test]
fn days_count_from_the_first_of_1970() {
    assert_eq!(civil_from_days(0), (1970, 1, 1));
    assert_eq!(civil_from_days(-1), (1969, 12, 31));
    assert_eq!(civil_from_days(19_782), (2024, 2, 29));
    assert_eq!(civil_from_days(11_016), (2000, 2, 29));
    assert_eq!(civil_from_days(-25_508), (1900, 3, 1));
}

// --- the session ------------------------------------------------------------

#[test]
fn state_round_trips_through_serialize_and_parse() {
    let s = State {
        midi_dir: some("/home/me/midi"),
        sf2_dir: some("/srv/sf2"),
        soundfont: some("/srv/sf2/CT8MGM.SF2"),
        ..State::default()
    };
    let parsed = state::parse_conf(&state::serialize(&s));
    assert_eq!(parsed.midi_dir, s.midi_dir);
    assert_eq!(parsed.sf2_dir, s.sf2_dir);
    assert_eq!(parsed.soundfont, s.soundfont);
}

#[test]
fn serialize_omits_unset_fields() {
    let s = State { midi_dir: some("/m"), ..State::default() };
    let out = state::serialize(&s);
    assert!(out.contains("midi_dir = /m"));
    assert!(!out.contains("sf2_dir"));
    assert!(!out.contains("soundfont"));
}

#[test]
fn parse_tolerates_blanks_comments_and_unknown_keys() {
    let text = "\n# a comment\n  midi_dir =  /a/b \nbogus = x\nsoundfont=/f.sf2\n";
    let s = state::parse_conf(text);
    assert_eq!(s.midi_dir, some("/a/b"));
    assert_eq!(s.soundfont, some("/f.sf2"));
    assert_eq!(s.sf2_dir, None);
}

#[test]
fn parse_of_empty_is_default() {
    let s = state::parse_conf("");
    assert!(s.midi_dir.is_none() && s.sf2_dir.is_none() && s.soundfont.is_none());
}

#[test]
fn the_session_keeps_the_played_member_and_the_playlist() {
    let s = State {
        midi_dir: Some(zip("/m/z.zip", "a")),
        midi_file: Some(zip("/m/z.zip", "a/x.mid")),
        playlist: Some("/l/evening.m3u".to_string()),
        ..State::default()
    };
    let w = state::save(&s, &host()).expect("a home directory");
    assert_eq!(w.path, "/home/me/.config/voxfont/state.conf");
    let again = state::load(Some(w.body), None);
    assert_eq!(again.midi_dir, s.midi_dir);
    assert_eq!(again.midi_file, s.midi_file);
    assert_eq!(again.playlist, s.playlist);
    let nowhere = Host { home: None, xdg_config: None, cwd: None };
    assert!(state::save(&s, &nowhere).is_none());
}
