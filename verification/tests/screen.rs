//! What the screen says.

use voxfont::app::{App, Panel, PlayState, PromptKind, Source};
use voxfont::calendar::fmt_stamp_at;
use voxfont::history::Row;
use voxfont::host::Host;
use voxfont::lines::{Look, Piece};
use voxfont::midi::{Length, MidiInfo};
use voxfont::ui::{
    bar_beat_label, entry_icon, entry_kind, entry_right, fmt_hms, fmt_time, gauge_appearance,
    help_place, history_columns, history_row_text, human_size, name_of, nothing_line,
    overlay_hint, overlay_place, panel_count, panel_title, prompt_labels, row_line,
    signature_label, state_badge, times_label, truncate_pad, when_heading, EntryKind, Place, Tone,
};
use voxfont::vfs::{DirChild, Disk, FileKind, Location};

fn fs(p: &str) -> Location {
    Location::Fs(p.to_string())
}

fn host() -> Host {
    Host { home: Some("/home/me".to_string()), xdg_config: None, cwd: Some("/work".to_string()) }
}

fn child(dir: &str, name: &str, is_dir: bool, size: u64) -> DirChild {
    DirChild {
        name: name.to_string(),
        loc: Location::Fs(format!("{dir}/{name}")),
        is_dir,
        size,
        length: None,
    }
}

/// An app whose MIDI panel has `midi` in it and whose SoundFont panel `fonts`.
fn app(midi: &[&str], fonts: &[&str]) -> (App, Disk) {
    let mut disk = Disk::new();
    for n in midi {
        disk.put(format!("/m/{n}"), FileKind::File);
    }
    for n in fonts {
        disk.put(format!("/s/{n}"), FileKind::File);
    }
    let ms: Vec<DirChild> = midi.iter().map(|n| child("/m", n, false, 1)).collect();
    let ss: Vec<DirChild> = fonts.iter().map(|n| child("/s", n, false, 1)).collect();
    (App::new(fs("/m"), fs("/s"), &ms, &ss, None), disk)
}

/// The rows of a panel, with the two columns of marks.
fn panel_rows(app: &App, panel: Panel, w: usize) -> Vec<String> {
    let b = if panel == Panel::Midi { &app.midi } else { &app.sf2 };
    b.entries
        .iter()
        .map(|e| {
            let right = entry_right(panel, e);
            let line = row_line(entry_icon(entry_kind(panel, e)), &e.name, &right, w);
            format!("{}{}", app.entry_marker(panel, &e.loc), line)
        })
        .collect()
}

/// The rows of the open overlay, as they are drawn.
fn overlay_rows(app: &App, width: u16) -> Vec<String> {
    let o = app.overlay.as_ref().unwrap();
    let cols = history_columns(width, o.source);
    o.rows.iter().map(|r| app.overlay_row_text(o.source, r, 0, cols)).collect()
}

#[test]
fn history_overlay_shows_the_pair_and_its_timestamp() {
    let (mut app, disk) = app(&[], &[]);
    let when = 1_758_067_400;
    app.history.record(Some(fs("/m/CANYON.MID")), Some(fs("/s/CT8MGM.SF2")), when, true);
    app.history_open(&disk);

    let title = app.overlay_title().unwrap();
    assert!(title.contains("History"), "{title}");
    let out = overlay_rows(&app, 100).join("\n");
    assert!(out.contains("CANYON.MID"), "{out}");
    assert!(out.contains("CT8MGM.SF2"), "{out}");
    // The absolute time is on the row, not just a relative age.
    assert!(out.contains(&fmt_stamp_at(when, 0, false)), "{out}");
    // Both files have gone, and the row says so.
    assert!(out.starts_with("! "), "{out}");
    // The detail lines spell out where each file actually lives.
    let (track, font) = app.overlay_details(when + 120).unwrap();
    assert_eq!(track.0, Some(fs("/m/CANYON.MID")));
    assert_eq!(track.0.unwrap().display(), "/m/CANYON.MID");
    assert_eq!(track.1, "2 min ago");
    assert_eq!(font.0, Some(fs("/s/CT8MGM.SF2")));
    assert_eq!(font.1, "");

    // A cramped terminal must still render rather than panic on layout.
    let area = Place { x: 0, y: 0, width: 24, height: 6 };
    assert_eq!(overlay_place(area, 1), Place { x: 2, y: 1, width: 20, height: 4 });
    assert_eq!(history_columns(0, Source::History), (18, 0, 0, 5));
    let _ = overlay_rows(&app, 0);
}

#[test]
fn favourites_show_a_star_in_the_panels_and_list_in_the_overlay() {
    let (mut app, disk) = app(&["CANYON.MID"], &["CT8MGM.SF2"]);
    app.now_playing = Some(fs("/m/CANYON.MID"));
    app.soundfont = Some(fs("/s/CT8MGM.SF2"));
    app.favs.toggle(fs("/m/CANYON.MID"), fs("/s/CT8MGM.SF2"), 1_758_067_400);

    // Both panels mark the starred pair solid — the track in one, the font
    // it is starred with in the other.
    let panels =
        format!("{:?}{:?}", panel_rows(&app, Panel::Midi, 40), panel_rows(&app, Panel::Sf2, 40));
    assert_eq!(panels.matches('★').count(), 2, "one star per panel:\n{panels}");
    // And the player bar's Fav badge is there.
    assert!(app.current_is_favourite());

    // The overlay lists the pair, under its own heading and hints.
    app.favourites_open(&disk);
    assert!(app.overlay_title().unwrap().contains("Favourites"));
    let out = overlay_rows(&app, 100).join("\n");
    assert!(out.contains("CANYON.MID"), "{out}");
    assert!(out.contains("CT8MGM.SF2"), "{out}");
    assert!(overlay_hint(Source::Favourites).contains("Enter play from here"));
    // A star on every row would be noise, so the overlay adds none — the
    // two still on screen are the panels' own, behind the popup — and the
    // slot marks the playing row instead, the third ♪ here.
    let all = format!("{panels}{out}");
    assert_eq!(all.matches('★').count(), 2, "{all}");
    assert_eq!(all.matches('♪').count(), 3, "{all}");
}

#[test]
fn the_playlist_shows_in_the_panel_and_overlay() {
    let (mut app, disk) = app(&["CANYON.MID", "evening.m3u"], &["CT8MGM.SF2"]);
    // The playlist file is listed with its own marker.
    let out = panel_rows(&app, Panel::Midi, 40).join("\n");
    assert!(out.contains(" ≡  evening.m3u"), "{out}");

    app.playlist.push(fs("/m/CANYON.MID"), Some(fs("/s/CT8MGM.SF2")), &host());
    app.playlist.push(fs("/m/CANYON.MID"), None, &host());
    app.playlist_open(&disk);
    let title = app.overlay_title().unwrap();
    assert!(title.contains("Playlist — untitled · 2 · modified"), "{title}");
    let out = overlay_rows(&app, 106).join("\n");
    assert!(out.contains("CT8MGM.SF2"), "{out}");
    assert!(out.contains("(your font)"), "{out}");
    assert!(overlay_hint(Source::Playlist).contains("S set font"));
    // The first column numbers the items.
    assert!(out.contains("     1 CANYON.MID"), "{out}");

    // The overlay keeps to the panels: the player bar and the hints, which
    // now list the keys that reach the player, stay in view.
    assert!(app.key_hints().contains("Space pause"));
    assert!(app.key_hints().contains("s stop"));
    assert_eq!(app.overlay_details(0).unwrap().1 .1, "");
    app.overlay.as_mut().unwrap().move_down(1);
    assert_eq!(app.overlay_details(0).unwrap().1 .1, "your font — none loaded yet");

    // The save prompt takes over the bottom line.
    app.overlay_save(false, &host());
    let p = app.prompt.as_ref().unwrap();
    assert_eq!(prompt_labels(p.kind).0, "SAVE PLAYLIST: ");
    let _ = overlay_rows(&app, 20);
}

#[test]
fn stopped_resets_gauge_instead_of_recolouring() {
    // While playing/paused the bar keeps its progress and state colour.
    assert_eq!(
        gauge_appearance(PlayState::Playing, (42, 100), Tone::Green),
        ((42, 100), Tone::Green)
    );
    assert_eq!(
        gauge_appearance(PlayState::Paused, (42, 100), Tone::Yellow),
        ((42, 100), Tone::Yellow)
    );
    // On stop the bar resets to empty and is not recoloured red, even though
    // the synth still reports a near-full position.
    assert_eq!(
        gauge_appearance(PlayState::Stopped, (99, 100), Tone::Red),
        ((0, 1), Tone::DarkGray)
    );
    assert_eq!(state_badge(PlayState::Playing), ("▶ PLAY ", Tone::Green));
    assert_eq!(state_badge(PlayState::Paused).1, Tone::Yellow);
    assert_eq!(state_badge(PlayState::Stopped).1, Tone::Red);
}

fn secs(n: u128) -> Length {
    Length { num: n, den: 1 }
}

#[test]
fn fmt_time_minutes_and_hours() {
    assert_eq!(fmt_time(secs(0)), "00:00");
    assert_eq!(fmt_time(secs(7)), "00:07");
    assert_eq!(fmt_time(secs(98)), "01:38");
    assert_eq!(fmt_time(secs(3661)), "1:01:01");
    // A length that is not known.
    assert_eq!(fmt_time(Length { num: 0, den: 0 }), "00:00");
    assert_eq!(fmt_time(Length { num: 5, den: 0 }), "00:00");
    // Part of a second is dropped.
    assert_eq!(fmt_time(Length { num: 199, den: 100 }), "00:01");
}

#[test]
fn fmt_hms_for_file_list() {
    assert_eq!(fmt_hms(secs(0)), "");
    assert_eq!(fmt_hms(secs(128)), "2:08");
    assert_eq!(fmt_hms(Length { num: 896, den: 10 }), "1:30"); // rounds
    assert_eq!(fmt_hms(secs(3725)), "1:02:05");
}

#[test]
fn human_size_scales_units() {
    assert_eq!(human_size(0), "0B");
    assert_eq!(human_size(512), "512B");
    assert_eq!(human_size(2 * 1024 + 100), "2.1K");
    assert_eq!(human_size(8 * 1024 * 1024), "8.0M");
    assert_eq!(human_size(148 * 1024 * 1024), "148M");
    assert_eq!(human_size(3 * 1024 * 1024 * 1024), "3.0G");
}

#[test]
fn human_size_rounds_as_floats_print() {
    // The float that the size is of its unit, printed to one or no decimals.
    let by_float = |n: u64| {
        let units = ["B", "K", "M", "G", "T"];
        let mut f = n as f64;
        let mut i = 0;
        while f >= 1024.0 && i < 4 {
            f /= 1024.0;
            i += 1;
        }
        if i == 0 {
            format!("{n}B")
        } else if f < 10.0 {
            format!("{f:.1}{}", units[i])
        } else {
            format!("{f:.0}{}", units[i])
        }
    };
    let mut n: u64 = 1;
    while n < 1 << 52 {
        for d in [0, 1, 51, 52, 127, 128, 511, 512, 513, 1023] {
            assert_eq!(human_size(n + d), by_float(n + d), "{}", n + d);
        }
        n = n * 3 + 7;
    }
}

#[test]
fn truncate_pad_pads_and_truncates() {
    assert_eq!(truncate_pad("abc", 5), "abc  ");
    assert_eq!(truncate_pad("abc", 3), "abc");
    assert_eq!(truncate_pad("abcdef", 4), "abc…");
    assert_eq!(truncate_pad("anything", 0), "");
    // Result width is always exactly `w` columns.
    assert_eq!(truncate_pad("hello world", 6).chars().count(), 6);
    assert_eq!(truncate_pad("hi", 6).chars().count(), 6);
}

#[test]
fn a_row_leaves_room_for_its_right_hand_column() {
    let (mut a, _) = app(&["song.mid", "x.mid"], &["f.sf2"]);
    let kids = vec![
        DirChild { length: Some(secs(65)), ..child("/m", "song.mid", false, 1) },
        child("/m", "sub", true, 0),
        DirChild {
            loc: Location::Zip { archive: "/m/z.zip".to_string(), inner: String::new() },
            ..child("/m", "z.zip", true, 2048)
        },
    ];
    a.midi.refresh(&kids);
    let kinds: Vec<EntryKind> =
        a.midi.entries.iter().map(|e| entry_kind(Panel::Midi, e)).collect();
    assert_eq!(kinds[0], EntryKind::Parent);
    let rights: Vec<String> =
        a.midi.entries.iter().map(|e| entry_right(Panel::Midi, e)).collect();
    assert_eq!(rights, ["", "", "2.0K", "1:05"]);
    let font = &a.sf2.entries[1];
    assert_eq!(entry_right(Panel::Sf2, font), "1B");
    assert_eq!(row_line("♪ ", "name", "", 5), "♪  name");
    assert_eq!(row_line("♪ ", "a long name", "1:05", 15), "♪  a lo…");
    assert_eq!(panel_count(&a.midi), " 3 items ");
    a.midi.set_filter("SO");
    assert_eq!(panel_count(&a.midi), " 1 of 3 ");
    assert_eq!(panel_title(&a.midi, "MIDI"), " MIDI — /m ");
}

#[test]
fn the_player_bar_has_its_labels() {
    let (mut a, disk) = app(&["a.mid"], &["f.sf2"]);
    assert_eq!(a.track_label(), "—");
    assert_eq!(a.font_label(), "SF: none");
    assert_eq!(a.volume_label(), "Vol  60%");
    assert!(a.queue_badge().is_none());
    a.soundfont = Some(fs("/s/f.sf2"));
    a.now_playing = Some(fs("/m/a.mid"));
    assert_eq!(a.track_label(), "a.mid");
    assert_eq!(a.font_label(), "SF: f.sf2");
    a.volume = 100;
    assert_eq!(a.volume_label(), "Vol 100%");
    a.favs.toggle(fs("/m/a.mid"), fs("/s/f.sf2"), 1);
    let _ = a.play_favourite_at(0, &disk);
    assert_eq!(a.queue_badge().unwrap(), " Favs 1/1 ");
    assert_eq!(times_label(secs(61), secs(3600)), "[01:01 / 1:00:00]");
    assert_eq!(bar_beat_label((12, 3)), "♪ 12:3");
    assert_eq!(signature_label((6, 8)), " 6/8");
    assert_eq!(name_of(&None), "—");
    assert_eq!(prompt_labels(PromptKind::Goto).0, "GO: ");
    assert!(a.key_hints().contains("q quit"));
}

#[test]
fn popups_stay_within_their_area() {
    let area = Place { x: 3, y: 2, width: 200, height: 40 };
    assert_eq!(overlay_place(area, 3), Place { x: 48, y: 18, width: 110, height: 8 });
    assert_eq!(overlay_place(area, 1000), Place { x: 48, y: 3, width: 110, height: 38 });
    assert_eq!(help_place(area, 10), Place { x: 73, y: 16, width: 60, height: 12 });
    let none = Place { x: 0, y: 0, width: 0, height: 0 };
    assert_eq!(overlay_place(none, 9), none);
    assert_eq!(help_place(none, 9), none);
}

#[test]
fn the_table_keeps_its_columns() {
    assert_eq!(history_columns(100, Source::History), (18, 36, 37, 5));
    assert_eq!(history_columns(100, Source::Playlist), (6, 42, 43, 5));
    assert_eq!(history_row_text("w", "track", "font", "3x", (2, 4, 5, 5)), "w  tra… font     3x");
    assert_eq!(when_heading(Source::Favourites), "starred");
    assert_eq!(when_heading(Source::Playlist), "     #");
    assert!(nothing_line(Source::History).contains("nothing played yet"));
}

#[test]
fn the_playing_row_is_marked() {
    let (mut a, disk) = app(&["a.mid"], &["f.sf2"]);
    let row = |gone: bool| Row {
        midi: Some(fs("/m/a.mid")),
        soundfont: Some(fs("/s/f.sf2")),
        when: 0,
        plays: 2,
        idxs: vec![0],
        gone,
    };
    assert!(!a.row_playing(Source::History, &row(false)));
    a.now_playing = Some(fs("/m/a.mid"));
    a.soundfont = Some(fs("/s/f.sf2"));
    assert!(a.row_playing(Source::History, &row(false)));
    assert!(!a.row_playing(Source::History, &row(true)));
    assert!(!a.row_playing(Source::Playlist, &row(false)));
    a.playlist.push(fs("/m/a.mid"), None, &host());
    a.user_font = Some(fs("/s/f.sf2"));
    let _ = a.play_playlist_at(0, &disk);
    assert!(a.row_playing(Source::Playlist, &row(false)));
    let text = a.overlay_row_text(Source::Playlist, &row(false), 0, (6, 8, 8, 5));
    assert_eq!(text, " ♪   1 a.mid    f.sf2       2x");
}

fn joined(v: &[Piece]) -> String {
    v.iter().map(|p| p.text.as_str()).collect()
}

fn look(v: &[Piece], text: &str) -> Look {
    v.iter().find(|p| p.text == text).unwrap().look
}

#[test]
fn the_player_line_says_it_all() {
    let (mut a, disk) = app(&["a.mid"], &["f.sf2"]);
    let line = a.player_line(0, None, None);
    assert_eq!(
        joined(&line),
        "⏹ STOP   —   [00:00 / 00:00]   SF: none   Vol  60%    Next   Rep   Fav "
    );
    assert_eq!(look(&line, "⏹ STOP "), Look::Bold(Tone::Red));
    assert_eq!(look(&line, " Next "), Look::Lit(Tone::Green));
    assert_eq!(look(&line, " Rep "), Look::Colour(Tone::DarkGray));

    a.favs.toggle(fs("/m/a.mid"), fs("/s/f.sf2"), 1);
    let _ = a.play_favourite_at(0, &disk);
    a.now_playing = Some(fs("/m/a.mid"));
    a.soundfont = Some(fs("/s/f.sf2"));
    a.state = PlayState::Playing;
    a.cur_info = Some(MidiInfo { division: 480, length: secs(120), ts_num: 3, ts_den: 4 });
    a.message = Some("hello".to_string());
    a.search = Some("q".to_string());
    let line = a.player_line(0, Some((1440, 9000)), Some(-1));
    assert_eq!(
        joined(&line),
        "▶ PLAY   a.mid   [00:00 / 02:00]   ♪ 2:1 3/4  -1 BPM   SF: f.sf2   Vol  60%    Next   \
         Rep   Fav   Favs 1/1    hello   /q"
    );
    assert_eq!(look(&line, " Fav "), Look::Lit(Tone::Green));
    // The favourites are the queue, but their overlay is closed.
    assert_eq!(look(&line, " Favs 1/1 "), Look::Colour(Tone::DarkGray));
    assert_eq!(look(&line, "hello"), Look::Colour(Tone::Yellow));
    assert_eq!(look(&line, "/q"), Look::Over(Tone::Cyan));
    a.favourites_open(&disk);
    let line = a.player_line(0, None, Some(120));
    assert_eq!(look(&line, " Favs 1/1 "), Look::Lit(Tone::Magenta));
    assert_eq!(look(&line, "120 BPM"), Look::Colour(Tone::Green));
}

#[test]
fn the_bottom_line_is_the_prompt_or_the_hints() {
    let (mut a, _) = app(&[], &[]);
    assert_eq!(joined(&a.bottom_line()), a.key_hints());
    a.start_goto();
    let line = a.bottom_line();
    assert_eq!(line[0].text, "GO: ");
    assert_eq!(line[0].look, Look::Lit(Tone::Cyan));
    assert_eq!(line[1].text, "/m/█");
}

#[test]
fn panel_rows_have_marks_names_and_a_column() {
    let (mut a, _) = app(&["a.mid", "l.m3u"], &["f.sf2"]);
    a.soundfont = Some(fs("/s/f.sf2"));
    let row = a.panel_row(Panel::Sf2, &a.sf2.entries[1], 20);
    assert_eq!(joined(&row), "♪     f.sf2       1B");
    assert_eq!(row[1].look, Look::Bold(Tone::Green));
    assert_eq!(row[3].look, Look::Colour(Tone::DarkGray));
    let row = a.panel_row(Panel::Midi, &a.midi.entries[2], 20);
    assert_eq!(joined(&row), "   ≡  l.m3u");
    assert_eq!(row[1].look, Look::Colour(Tone::Magenta));
    let row = a.panel_row(Panel::Midi, &a.midi.entries[0], 20);
    assert_eq!(row[1].look, Look::Colour(Tone::Yellow));
}

#[test]
fn overlay_rows_are_dimmed_when_gone() {
    let (mut a, disk) = app(&["a.mid"], &["f.sf2"]);
    assert!(a.detail_lines(0).is_empty());
    a.history_open(&disk);
    let lines = a.detail_lines(0);
    assert_eq!(lines.len(), 1);
    assert!(joined(&lines[0]).contains("nothing played yet"));
    a.history.record(Some(fs("/m/a.mid")), Some(fs("/s/f.sf2")), 100, true);
    a.history.record(Some(fs("/m/b.mid")), None, 50, true);
    a.history_open(&disk);
    let cols = history_columns(80, Source::History);
    let looks: Vec<Look> = {
        let o = a.overlay.as_ref().unwrap();
        o.rows.iter().map(|r| a.overlay_row(Source::History, r, 0, cols).look).collect()
    };
    assert_eq!(looks, [Look::Colour(Tone::White), Look::Colour(Tone::DarkGray)]);
    let lines = a.detail_lines(160);
    assert_eq!(joined(&lines[0]), " track  /m/a.mid   (1 min ago)");
    assert_eq!(joined(&lines[1]), " font   /s/f.sf2");
    a.now_playing = Some(fs("/m/a.mid"));
    a.soundfont = Some(fs("/s/f.sf2"));
    let o = a.overlay.as_ref().unwrap();
    let row = a.overlay_row(Source::History, &o.rows[0], 0, cols);
    assert_eq!(row.look, Look::Bold(Tone::Green));
}
