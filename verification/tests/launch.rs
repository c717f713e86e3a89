//! The command line, the start directories and the synth's settings.

use voxfont::cli::{
    fold_warnings, launch_list, parse_args, start_dirs, still_present, validate_dir, Launch,
};
use voxfont::host::Host;
use voxfont::raw::{join_pieces, Piece};
use voxfont::state::State;
use voxfont::synth::{autoconnects, driver_candidates, driver_warning, seek_target};
use voxfont::vfs::{Disk, FileKind, Location};

fn s(v: &[&str]) -> Vec<String> {
    v.iter().map(|x| x.to_string()).collect()
}

#[test]
fn parses_empty_to_all_none() {
    let c = parse_args(&s(&[])).unwrap();
    assert!(c.driver.is_none());
    assert!(c.midi_dir.is_none());
    assert!(c.sf2_dir.is_none());
}

#[test]
fn parses_driver_and_two_dirs() {
    let c = parse_args(&s(&["-R", "alsa", "/midi", "/sf2"])).unwrap();
    assert_eq!(c.driver.as_deref(), Some("alsa"));
    assert_eq!(c.midi_dir.as_deref(), Some("/midi"));
    assert_eq!(c.sf2_dir.as_deref(), Some("/sf2"));
}

#[test]
fn driver_may_follow_positionals_and_use_equals() {
    let c = parse_args(&s(&["/midi", "--driver=jack"])).unwrap();
    assert_eq!(c.driver.as_deref(), Some("jack"));
    assert_eq!(c.midi_dir.as_deref(), Some("/midi"));
    assert!(c.sf2_dir.is_none());
}

#[test]
fn rejects_unknown_driver_and_missing_value() {
    assert!(parse_args(&s(&["-R", "oss"])).is_err());
    assert!(parse_args(&s(&["-R"])).is_err());
    assert!(parse_args(&s(&["--driver=oss"])).is_err());
}

#[test]
fn parses_no_history_flag() {
    let c = parse_args(&s(&["--no-history", "/midi"])).unwrap();
    assert!(c.no_history);
    assert_eq!(c.midi_dir.as_deref(), Some("/midi"));
    assert!(!parse_args(&s(&["/midi"])).unwrap().no_history);
}

#[test]
fn parses_playlist_option_in_both_forms() {
    let c = parse_args(&s(&["-p", "list.m3u", "/midi"])).unwrap();
    assert_eq!(c.playlist.as_deref(), Some("list.m3u"));
    assert_eq!(c.midi_dir.as_deref(), Some("/midi"));
    let c = parse_args(&s(&["--playlist=/l/a.m3u"])).unwrap();
    assert_eq!(c.playlist.as_deref(), Some("/l/a.m3u"));
    assert!(parse_args(&s(&[])).unwrap().playlist.is_none());
    assert!(parse_args(&s(&["-p"])).is_err());
    assert!(parse_args(&s(&["--playlist="])).is_err());
}

#[test]
fn rejects_unknown_option_and_excess_positionals() {
    assert!(parse_args(&s(&["--bogus"])).is_err());
    assert!(parse_args(&s(&["a", "b", "c"])).is_err());
}

#[test]
fn double_dash_forces_positionals() {
    let c = parse_args(&s(&["--", "-R", "x"])).unwrap();
    assert!(c.driver.is_none());
    assert_eq!(c.midi_dir.as_deref(), Some("-R"));
    assert_eq!(c.sf2_dir.as_deref(), Some("x"));
}

#[test]
fn misuse_is_explained() {
    let e = |v: &[&str]| parse_args(&s(v)).err().unwrap();
    assert_eq!(e(&["-R"]), "-R requires a value (jack or alsa)");
    assert_eq!(e(&["-R", "oss"]), "unknown driver 'oss' (expected jack or alsa)");
    assert_eq!(e(&["-R=oss"]), "unknown driver 'oss' (expected jack or alsa)");
    assert_eq!(e(&["--playlist"]), "--playlist requires a playlist file");
    assert_eq!(e(&["-p="]), "-p= requires a playlist file");
    assert_eq!(e(&["--bogus"]), "unknown option '--bogus'");
    assert_eq!(
        e(&["a", "b", "c"]),
        "too many positional arguments (expected at most MIDI_DIR and SOUNDFONT_DIR)"
    );
    // A lone dash is a directory like any other.
    assert_eq!(parse_args(&s(&["-"])).unwrap().midi_dir.as_deref(), Some("-"));
}

#[test]
fn validate_dir_warns_on_missing_path_but_not_on_absent_arg() {
    let mut w: Vec<String> = Vec::new();
    let d = Disk::new();
    assert!(validate_dir(&None, "MIDI_DIR", &d, false, &mut w).is_none());
    assert!(w.is_empty());

    let arg = Some("/no/such/dir".to_string());
    assert!(validate_dir(&arg, "MIDI_DIR", &d, false, &mut w).is_none());
    assert_eq!(w.len(), 1);
    assert!(w[0].contains("MIDI_DIR"));
}

#[test]
fn validate_dir_accepts_a_real_directory() {
    let mut d = Disk::new();
    d.put("/s".to_string(), FileKind::Dir);
    let path = Some("/s".to_string());
    let mut w: Vec<String> = Vec::new();
    let loc = validate_dir(&path, "SOUNDFONT_DIR", &d, true, &mut w);
    assert!(loc.is_some());
    assert!(w.is_empty());
    // One that cannot be listed is not usable.
    assert!(validate_dir(&path, "SOUNDFONT_DIR", &d, false, &mut w).is_none());
    assert_eq!(w, ["SOUNDFONT_DIR '/s' is not readable"]);
}

#[test]
fn start_directories_come_from_the_arguments_then_the_session_then_home() {
    let host = Host { home: Some("/h".to_string()), xdg_config: None, cwd: None };
    let mut d = Disk::new();
    d.put("/saved".to_string(), FileKind::Dir);
    let fs = |p: &str| Location::Fs(p.to_string());
    let saved = State { midi_dir: Some(fs("/saved")), sf2_dir: Some(fs("/gone")), ..State::default() };
    let (m, f) = start_dirs(None, None, &saved, &d, &host);
    assert_eq!((m, f), (fs("/saved"), fs("/h")));
    let (m, f) = start_dirs(Some(fs("/arg")), None, &saved, &d, &host);
    assert_eq!((m, f), (fs("/arg"), fs("/h")));
    let (m, f) = start_dirs(None, Some(fs("/fonts")), &State::default(), &d, &host);
    assert_eq!((m, f), (fs("/h"), fs("/fonts")));
    let nowhere = Host { home: None, xdg_config: None, cwd: None };
    let (m, _) = start_dirs(None, None, &State::default(), &d, &nowhere);
    assert_eq!(m, fs("."));
}

#[test]
fn warnings_come_before_the_banner() {
    let none: Vec<String> = Vec::new();
    assert_eq!(fold_warnings(&none, Some("x".to_string())).as_deref(), Some("x"));
    assert_eq!(fold_warnings(&none, None), None);
    let two = s(&["a", "b"]);
    assert_eq!(fold_warnings(&two, Some("c".to_string())).as_deref(), Some("a; b; c"));
    assert_eq!(fold_warnings(&two, None).as_deref(), Some("a; b"));
}

#[test]
fn drivers_are_tried_in_order() {
    let t = |x: &str| Some(x.to_string());
    assert_eq!(driver_candidates(t("alsa"), t("pipewire")), ["alsa"]);
    assert_eq!(driver_candidates(None, t("pipewire")), ["pipewire"]);
    assert_eq!(driver_candidates(None, None), ["jack", "pulseaudio", "alsa"]);
    assert_eq!(driver_warning(true), None);
    assert!(driver_warning(false).unwrap().starts_with("audio driver failed to start"));
    assert!(autoconnects(&t("on")) && autoconnects(&t("1")));
    assert!(autoconnects(&t("yes")) && autoconnects(&t("true")));
    assert!(!autoconnects(&t("0")) && !autoconnects(&None));
}

#[test]
fn a_seek_stays_inside_the_song() {
    assert_eq!(seek_target(100, 1000, -500), 0);
    assert_eq!(seek_target(100, 1000, 50), 150);
    assert_eq!(seek_target(100, 1000, 5000), 1000);
    assert_eq!(seek_target(100, 0, 5000), 5100);
    assert_eq!(seek_target(i32::MAX, 0, i32::MAX), i32::MAX);
}

#[test]
fn expand_tilde_uses_home() {
    // Independent of the environment: a plain path is unchanged.
    let h = Host { home: Some("/home/me".to_string()), xdg_config: None, cwd: None };
    assert_eq!(h.expand_tilde("/etc/passwd"), "/etc/passwd");
    assert_eq!(h.expand_tilde("~/x"), "/home/me/x");
    assert_eq!(h.expand_tilde("~"), "/home/me");
    assert_eq!(h.expand_tilde("~x"), "~x");
}

#[test]
fn the_configuration_directory_follows_the_environment() {
    let h = Host {
        home: Some("/home/me".to_string()),
        xdg_config: Some("/xdg".to_string()),
        cwd: None,
    };
    assert_eq!(h.config_path().as_deref(), Some("/xdg/voxfont/state.conf"));
    let nowhere = Host { home: None, xdg_config: None, cwd: None };
    assert_eq!(nowhere.config_path(), None);
}

#[test]
fn a_session_is_restored_as_far_as_it_is_still_there() {
    let mut d = Disk::new();
    d.put("/m/z.zip".to_string(), FileKind::File);
    d.put("/l/a.m3u".to_string(), FileKind::File);
    let member = Location::Zip { archive: "/m/z.zip".to_string(), inner: "x.mid".to_string() };
    assert_eq!(still_present(&Some(member.clone()), &d), Some(member));
    assert_eq!(still_present(&Some(Location::Fs("/s/gone.sf2".to_string())), &d), None);
    assert_eq!(still_present(&None, &d), None);

    let mut saved = State::default();
    assert!(matches!(launch_list(&None, &saved, &d), Launch::Nothing));
    saved.playlist = Some("/l/a.m3u".to_string());
    assert!(matches!(launch_list(&None, &saved, &d), Launch::Reopen(p) if p == "/l/a.m3u"));
    let named = Some("b.m3u".to_string());
    assert!(matches!(launch_list(&named, &saved, &d), Launch::Show(p) if p == "b.m3u"));
    saved.playlist = Some("/l/gone.m3u".to_string());
    assert!(matches!(launch_list(&None, &saved, &d), Launch::Nothing));
}

#[test]
fn a_home_that_is_no_text_is_started_in_but_not_typed() {
    let raw = format!("/h{}", join_pieces(&vec![Piece::Bytes(vec![0xff])]));
    let host = Host { home: Some(raw.clone()), xdg_config: None, cwd: None };
    let (m, _) = start_dirs(None, None, &State::default(), &Disk::new(), &host);
    assert_eq!(m, Location::Fs(raw.clone()));
    assert_eq!(host.expand_tilde("~/x"), "/x");
    assert_eq!(host.config_path(), Some(format!("{raw}/.config/voxfont/state.conf")));
}
