//! What holds of the start of the program: its command line, where things are
//! kept, what was remembered, and what the synth is told.

use crate::app;
use crate::app::{AppView, EffectView, Panel, PlayState, WorldView};
use crate::browser::BrowserView;
use crate::cli;
use crate::cli::{CliView, LaunchView, Next, Scan};
use crate::host::HostView;
use crate::lists;
use crate::paths;
use crate::raw;
use crate::state;
use crate::state::StateView;
use crate::synth;
use crate::text;
use crate::vfs::{FileKind, LocView};
use vstd::prelude::*;

verus! {

// --- the command line -------------------------------------------------------

/// True when no argument is an option.
pub open spec fn all_places(args: Seq<Seq<char>>) -> bool {
    forall|i: int|
        0 <= i < args.len() ==> (#[trigger] args[i]).len() == 0 || args[i][0] != '-' || args[i]
            == seq!['-']
}

/// What every option starts with.
proof fn lemma_options(arg: Seq<char>)
    requires
        arg.len() == 0 || arg[0] != '-' || arg == seq!['-'],
    ensures
        forall|s: Scan, v: Option<Seq<char>>|
            #[trigger] cli::next(s, arg, v) == (Next::Go {
                scan: Scan { positional: s.positional.push(arg), ..s },
                two: false,
            }),
{
    reveal_strlit("-R");
    reveal_strlit("--driver");
    reveal_strlit("-R=");
    reveal_strlit("--driver=");
    reveal_strlit("--no-history");
    reveal_strlit("-p");
    reveal_strlit("--playlist");
    reveal_strlit("-p=");
    reveal_strlit("--playlist=");
    reveal_strlit("--");
    reveal_strlit("-");
    assert("-"@ =~= seq!['-']);
    assert(arg != "-R"@ && arg != "-p"@ && arg != "--"@ && arg != "--driver"@ && arg
        != "--playlist"@ && arg != "--no-history"@) by {
        assert("-R"@[0] == '-' && "-p"@[0] == '-' && "--"@[0] == '-' && "--driver"@[0] == '-'
            && "--playlist"@[0] == '-' && "--no-history"@[0] == '-');
    }
    if text::starts_with(arg, "-R="@) {
        assert(arg.take(3)[0] == '-');
    }
    if text::starts_with(arg, "-p="@) {
        assert(arg.take(3)[0] == '-');
    }
    if text::starts_with(arg, "--driver="@) {
        assert(arg.take(9)[0] == '-');
    }
    if text::starts_with(arg, "--playlist="@) {
        assert(arg.take(11)[0] == '-');
    }
    if text::starts_with(arg, "-"@) {
        assert(arg.take(1)[0] == '-');
    }
}

proof fn lemma_scan_places(args: Seq<Seq<char>>, i: int, s: Scan)
    requires
        0 <= i <= args.len(),
        all_places(args),
    ensures
        cli::scan_from(args, i, s) == Ok::<Scan, Seq<char>>(
            Scan { positional: s.positional + args.skip(i), ..s },
        ),
    decreases args.len() - i,
{
    if i < args.len() {
        lemma_options(args[i]);
        let t = Scan { positional: s.positional.push(args[i]), ..s };
        lemma_scan_places(args, i + 1, t);
        assert(s.positional.push(args[i]) + args.skip(i + 1) =~= s.positional + args.skip(i));
    } else {
        assert(s.positional + args.skip(i) =~= s.positional);
    }
}

/// A command line of places only: the first is the directory of the MIDI panel,
/// the second that of the SoundFont panel, and there is no third.
pub proof fn lemma_places(args: Seq<Seq<char>>)
    requires
        all_places(args),
    ensures
        args.len() <= 2 ==> cli::meaning(args) == Ok::<CliView, Seq<char>>(
            CliView {
                driver: None,
                midi_dir: if args.len() > 0 {
                    Some(args[0])
                } else {
                    None
                },
                sf2_dir: if args.len() > 1 {
                    Some(args[1])
                } else {
                    None
                },
                no_history: false,
                playlist: None,
            },
        ),
        args.len() > 2 ==> cli::meaning(args) is Err,
{
    let s = Scan { driver: None, no_history: false, playlist: None, positional: seq![] };
    lemma_scan_places(args, 0, s);
    assert(s.positional + args.skip(0) =~= args);
}

/// The options, each wherever it stands among the arguments: `-R` and
/// `--driver` choose between jack and alsa, `-p` and `--playlist` name a
/// playlist, either with the value behind it or after an equals sign,
/// `--no-history` keeps the session out of the history. A value that is missing
/// or that is no driver is an error, as is any other option.
pub proof fn lemma_options_mean(s: Scan, v: Seq<char>, value: Option<Seq<char>>)
    ensures
        ({
            let driver = v == "jack"@ || v == "alsa"@;
            let go = |x: Scan, two: bool| Next::Go { scan: x, two };
            let with_driver = Scan { driver: Some(v), ..s };
            let with_list = Scan { playlist: Some(v), ..s };
            &&& driver ==> cli::next(s, "-R"@, Some(v)) == go(with_driver, true)
            &&& driver ==> cli::next(s, "--driver"@, Some(v)) == go(with_driver, true)
            &&& driver ==> cli::next(s, "-R="@ + v, value) == go(with_driver, false)
            &&& driver ==> cli::next(s, "--driver="@ + v, value) == go(with_driver, false)
            &&& !driver ==> cli::next(s, "-R"@, Some(v)) is Fail
            &&& !driver ==> cli::next(s, "--driver"@, Some(v)) is Fail
            &&& !driver ==> cli::next(s, "-R="@ + v, value) is Fail
            &&& !driver ==> cli::next(s, "--driver="@ + v, value) is Fail
            &&& cli::next(s, "-R"@, None) is Fail && cli::next(s, "--driver"@, None) is Fail
            &&& cli::next(s, "-p"@, Some(v)) == go(with_list, true)
            &&& cli::next(s, "--playlist"@, Some(v)) == go(with_list, true)
            &&& v.len() > 0 ==> cli::next(s, "-p="@ + v, value) == go(with_list, false)
            &&& v.len() > 0 ==> cli::next(s, "--playlist="@ + v, value) == go(with_list, false)
            &&& cli::next(s, "-p="@, value) is Fail && cli::next(s, "--playlist="@, value) is Fail
            &&& cli::next(s, "-p"@, None) is Fail && cli::next(s, "--playlist"@, None) is Fail
            &&& cli::next(s, "--no-history"@, value) == go(Scan { no_history: true, ..s }, false)
            &&& cli::next(s, "--"@, value) is Rest
        }),
{
    reveal_strlit("-R");
    reveal_strlit("--driver");
    reveal_strlit("-R=");
    reveal_strlit("--driver=");
    reveal_strlit("--no-history");
    reveal_strlit("-p");
    reveal_strlit("--playlist");
    reveal_strlit("-p=");
    reveal_strlit("--playlist=");
    reveal_strlit("--");
    lemma_value("-R="@, v);
    lemma_value("--driver="@, v);
    lemma_value("-p="@, v);
    lemma_value("--playlist="@, v);
    let e: Seq<char> = seq![];
    lemma_value("-p="@, e);
    lemma_value("--playlist="@, e);
    assert("-p="@ + e =~= "-p="@);
    assert("--playlist="@ + e =~= "--playlist="@);
    lemma_apart(v);
    assert("--no-history"@[2] == 'n' && "--driver"@[2] == 'd' && "--playlist"@[2] == 'p');
    assert("-R"@[1] == 'R' && "-p"@[1] == 'p' && "--"@[1] == '-');
    assert(!text::starts_with("--no-history"@, "-R="@)) by {
        if text::starts_with("--no-history"@, "-R="@) {
            assert("--no-history"@.take(3)[1] == 'R');
        }
    }
    assert(!text::starts_with("--playlist"@, "-R="@)) by {
        if text::starts_with("--playlist"@, "-R="@) {
            assert("--playlist"@.take(3)[1] == 'R');
        }
    }
    assert(!text::starts_with("--playlist"@, "--driver="@)) by {
        if text::starts_with("--playlist"@, "--driver="@) {
            assert("--playlist"@.take(9)[2] == 'd');
        }
    }
    assert(!text::starts_with("--no-history"@, "--driver="@)) by {
        if text::starts_with("--no-history"@, "--driver="@) {
            assert("--no-history"@.take(9)[2] == 'd');
        }
    }
}

/// The forms with an equals sign are not taken for each other, nor for the
/// plain ones.
proof fn lemma_apart(v: Seq<char>)
    ensures
        ({
            let a = "-R="@ + v;
            let b = "--driver="@ + v;
            let c = "-p="@ + v;
            let d = "--playlist="@ + v;
            &&& forall|x: Seq<char>|
                x == a || x == b || x == c || x == d ==> #[trigger] text::find(x, '=') >= 0 && x
                    != "-R"@ && x != "--driver"@ && x != "-p"@ && x != "--playlist"@ && x
                    != "--no-history"@ && x != "--"@
            &&& !text::starts_with(c, "-R="@) && !text::starts_with(c, "--driver="@)
            &&& !text::starts_with(d, "-R="@) && !text::starts_with(d, "--driver="@)
            &&& !text::starts_with("-p="@, "-R="@) && !text::starts_with("-p="@, "--driver="@)
            &&& !text::starts_with("--playlist="@, "-R="@) && !text::starts_with(
                "--playlist="@,
                "--driver="@,
            )
        }),
{
    reveal_strlit("-R");
    reveal_strlit("--driver");
    reveal_strlit("-R=");
    reveal_strlit("--driver=");
    reveal_strlit("--no-history");
    reveal_strlit("-p");
    reveal_strlit("--playlist");
    reveal_strlit("-p=");
    reveal_strlit("--playlist=");
    reveal_strlit("--");
    let a = "-R="@ + v;
    let b = "--driver="@ + v;
    let c = "-p="@ + v;
    let d = "--playlist="@ + v;
    assert(a[2] == '=' && b[8] == '=' && c[2] == '=' && d[10] == '=');
    assert(forall|i: int| 0 <= i < 12 ==> "--no-history"@[i] != '=');
    assert(forall|i: int| 0 <= i < 8 ==> "--driver"@[i] != '=');
    assert(forall|i: int| 0 <= i < 10 ==> "--playlist"@[i] != '=');
    assert forall|x: Seq<char>| x == a || x == b || x == c || x == d implies #[trigger] text::find(
        x,
        '=',
    ) >= 0 && x != "-R"@ && x != "--driver"@ && x != "-p"@ && x != "--playlist"@ && x
        != "--no-history"@ && x != "--"@ by {
        text::lemma_find(x, '=');
        assert(x.len() >= 3);
        if x == a {
            assert(x[2] == '=');
        } else if x == b {
            assert(x[8] == '=');
        } else if x == c {
            assert(x[2] == '=');
        } else {
            assert(x[10] == '=');
        }
    }
    assert(c[1] == 'p' && d[1] == '-' && d[2] == 'p');
    if text::starts_with(c, "-R="@) {
        assert(c.take(3)[1] == 'R');
    }
    if text::starts_with(c, "--driver="@) {
        assert(c.take(9)[1] == '-');
    }
    if text::starts_with(d, "-R="@) {
        assert(d.take(3)[1] == 'R');
    }
    if text::starts_with(d, "--driver="@) {
        assert(d.take(9)[2] == 'd');
    }
    if text::starts_with("-p="@, "-R="@) {
        assert("-p="@.take(3)[1] == 'R');
    }
    if text::starts_with("--playlist="@, "-R="@) {
        assert("--playlist="@.take(3)[1] == 'R');
    }
    if text::starts_with("--playlist="@, "--driver="@) {
        assert("--playlist="@.take(9)[2] == 'd');
    }
}

proof fn lemma_value(opt: Seq<char>, v: Seq<char>)
    requires
        opt.len() > 0,
        opt.last() == '=',
        forall|i: int| 0 <= i < opt.len() - 1 ==> opt[i] != '=',
    ensures
        text::starts_with(opt + v, opt),
        cli::after_equals(opt + v) == v,
{
    let s = opt + v;
    let n = opt.len() - 1;
    assert(s[n] == '=');
    assert forall|i: int| 0 <= i < n implies s[i] != '=' by {
        assert(s[i] == opt[i]);
    }
    text::lemma_find_is(s, '=', n);
    assert(s.skip(n + 1) =~= v);
    assert(s.take(opt.len() as int) =~= opt);
}

/// The arguments are taken from the left: an option that takes a value takes the
/// next argument with it, `--` makes all that follow places, an error ends it.
pub proof fn lemma_scan(args: Seq<Seq<char>>, i: int, s: Scan)
    requires
        0 <= i < args.len(),
    ensures
        ({
            let value = if i + 1 < args.len() {
                Some(args[i + 1])
            } else {
                None
            };
            match cli::next(s, args[i], value) {
                Next::Go { scan, two } => cli::scan_from(args, i, s) == cli::scan_from(
                    args,
                    if two {
                        i + 2
                    } else {
                        i + 1
                    },
                    scan,
                ),
                Next::Rest => cli::scan_from(args, i, s) == Ok::<Scan, Seq<char>>(
                    Scan { positional: s.positional + args.skip(i + 1), ..s },
                ),
                Next::Fail { message } => cli::scan_from(args, i, s) == Err::<Scan, Seq<char>>(
                    message,
                ),
            }
        }),
        cli::scan_from(args, args.len() as int, s) == Ok::<Scan, Seq<char>>(s),
{
}

// --- where it starts --------------------------------------------------------

/// Each panel starts in its own directory: the one that was asked for, else the
/// one it was in, if that can still be opened, else home.
pub proof fn lemma_start(
    midi: Option<LocView>,
    sf2: Option<LocView>,
    saved: StateView,
    disk: Map<Seq<char>, FileKind>,
    home: Option<Seq<char>>,
)
    ensures
        ({
            let (m, f) = cli::start_places(midi, sf2, saved, disk, home);
            let at_home = LocView::Fs(
                if home is Some {
                    home->0
                } else {
                    seq!['.']
                },
            );
            let opens = |l: Option<LocView>| l is Some && (l->0).is_openable_dir(disk);
            &&& midi is Some ==> m == midi->0
            &&& sf2 is Some ==> f == sf2->0
            &&& midi is None && opens(saved.midi_dir) ==> m == saved.midi_dir->0
            &&& sf2 is None && opens(saved.sf2_dir) ==> f == saved.sf2_dir->0
            &&& midi is None && !opens(saved.midi_dir) ==> m == at_home
            &&& sf2 is None && !opens(saved.sf2_dir) ==> f == at_home
        }),
{
}

/// A directory can be opened when it is one, an archive when it is a file.
pub proof fn lemma_openable(p: Seq<char>, inner: Seq<char>, disk: Map<Seq<char>, FileKind>)
    ensures
        LocView::Fs(p).is_openable_dir(disk) <==> disk.contains_key(p) && disk[p] == FileKind::Dir,
        (LocView::Zip { archive: p, inner }).is_openable_dir(disk) <==> disk.contains_key(p)
            && disk[p] == FileKind::File,
{
}

/// A directory named on the command line is used when it is one and can be read;
/// otherwise a warning says why not.
pub proof fn lemma_named_dir(
    p: Seq<char>,
    label: Seq<char>,
    disk: Map<Seq<char>, FileKind>,
    readable: bool,
)
    ensures
        ({
            let r = cli::checked_dir(Some(p), label, disk, readable);
            let is_dir = disk.contains_key(p) && disk[p] == FileKind::Dir;
            &&& is_dir && readable ==> r.0 == Some(LocView::Fs(p)) && r.1 is None
            &&& !is_dir ==> r.0 is None && r.1 == Some(label + " '"@ + p + "' is not a directory"@)
            &&& is_dir && !readable ==> r.0 is None && r.1 == Some(
                label + " '"@ + p + "' is not readable"@,
            )
        }),
        cli::checked_dir(None, label, disk, readable).0 is None,
        cli::checked_dir(None, label, disk, readable).1 is None,
{
}

/// The playlist named on the command line is shown; without one, that of the
/// last session is opened again if its file is there.
pub proof fn lemma_launch(
    named: Option<Seq<char>>,
    saved: StateView,
    disk: Map<Seq<char>, FileKind>,
)
    ensures
        ({
            let r = cli::launched(named, saved, disk);
            let there = saved.playlist is Some && disk.contains_key(saved.playlist->0)
                && disk[saved.playlist->0] == FileKind::File;
            &&& named is Some ==> r == LaunchView::Show(named->0)
            &&& named is None && there ==> r == LaunchView::Reopen(saved.playlist->0)
            &&& named is None && !there ==> r is Nothing
        }),
{
}

/// What is remembered of a file is used only while the file is there.
pub proof fn lemma_still_there(l: LocView, disk: Map<Seq<char>, FileKind>)
    ensures
        l.is_present(disk) ==> cli::still_there(Some(l), disk) == Some(l),
        !l.is_present(disk) ==> cli::still_there(Some(l), disk) is None,
        cli::still_there(None, disk) is None,
{
}

/// The banner holds the warnings in their order, then what it held before, with
/// a semicolon between each two.
pub proof fn lemma_banner(a: Seq<char>, b: Seq<char>, m: Option<Seq<char>>)
    ensures
        cli::banner(seq![], m) == m,
        cli::banner(seq![a], None) == Some(a),
        m is Some ==> cli::banner(seq![a], m) == Some(a + "; "@ + m->0),
        cli::banner(seq![a, b], None) == Some(a + "; "@ + b),
        m is Some ==> cli::banner(seq![a, b], m) == Some(a + "; "@ + b + "; "@ + m->0),
{
    reveal_with_fuel(cli::joined, 4);
    assert(seq![a, b].drop_last() =~= seq![a]);
    if m is Some {
        assert(seq![a].push(m->0).drop_last() =~= seq![a]);
        assert(seq![a, b].push(m->0).drop_last() =~= seq![a, b]);
    }
}

/// A new application: the MIDI panel in focus, nothing playing or loaded, the
/// volume at sixty percent, next mode on, repeat off, the directory as the
/// queue, nothing kept.
pub proof fn lemma_fresh(midi: BrowserView, sf2: BrowserView, warning: Option<Seq<char>>)
    ensures
        ({
            let a = app::fresh(midi, sf2, warning);
            &&& a.midi == midi && a.sf2 == sf2 && a.active == Panel::Midi
            &&& a.state == PlayState::Stopped && a.now_playing is None && a.soundfont is None
            &&& a.volume == 60 && a.next_mode && !a.repeat
            &&& a.play_source is Directory && !a.queue_held && a.pending is None
            &&& a.history.entries.len() == 0 && a.favs.entries.len() == 0
                && a.playlist.items.len() == 0 && !a.playlist.dirty
            &&& a.user_font is None && a.last_played is None
            &&& a.message == warning && a.overlay is None && a.prompt is None && a.search is None
            &&& !a.show_help && !a.quit && a.discard_armed is None
            &&& a.heard.time(0) == 0 && a.shown.time(0) == 0
        }),
{
}

// --- what is kept -----------------------------------------------------------

/// Where things are kept: in `voxfont` below the configuration directory, which
/// is the one the environment names or `.config` below home.
pub proof fn lemma_kept_where(h: HostView)
    ensures
        ({
            let in_env = h.xdg_config is Some && (h.xdg_config->0).len() > 0;
            let base = if in_env {
                h.xdg_config->0
            } else {
                paths::join(h.home->0, ".config"@)
            };
            let dir = paths::join(base, "voxfont"@);
            &&& in_env || h.home is Some ==> {
                &&& h.state_file() == Some(paths::join(dir, "state.conf"@))
                &&& h.history_file() == Some(paths::join(dir, "history.conf"@))
                &&& h.favourites_file() == Some(paths::join(dir, "favourites.conf"@))
                &&& h.legacy_state_file() == Some(
                    paths::join(paths::join(base, "sfplay"@), "state.conf"@),
                )
            }
            &&& !in_env && h.home is None ==> h.state_file() is None && h.history_file() is None
                && h.favourites_file() is None && h.legacy_state_file() is None
        }),
{
}

/// What a session is remembered by: where the panels are, the track played last,
/// the loaded SoundFont and the open playlist.
pub proof fn lemma_session(a: AppView)
    ensures
        a.session().midi_dir == Some(a.midi.dir),
        a.session().sf2_dir == Some(a.sf2.dir),
        a.session().midi_file == a.last_played,
        a.session().soundfont == a.soundfont,
        a.session().playlist == a.playlist.path,
        a.persist_session ==> a.save_effects() == seq![EffectView::SaveSession],
        !a.persist_session ==> a.save_effects().len() == 0,
{
}

/// The file of the session: a line for each thing that is remembered, under its
/// own key. Its own file is read before that of the earlier name.
pub proof fn lemma_session_file(s: StateView, body: Seq<char>, legacy: Option<Seq<char>>)
    ensures
        s.midi_dir is Some && s.midi_file is Some && s.sf2_dir is Some && s.soundfont is Some
            && s.playlist is Some ==> state::file_lines(s) == seq![
            "midi_dir"@ + " = "@ + (s.midi_dir->0).encode(),
            "midi_file"@ + " = "@ + (s.midi_file->0).encode(),
            "sf2_dir"@ + " = "@ + (s.sf2_dir->0).encode(),
            "soundfont"@ + " = "@ + (s.soundfont->0).encode(),
            "playlist"@ + " = "@ + raw::shown(s.playlist->0),
        ],
        state::file_lines(state::unset()).len() == 0,
        state::remembered(Some(body), legacy) == state::parsed(body),
        legacy is Some ==> state::remembered(None, legacy) == state::parsed(legacy->0),
        state::remembered(None, None) == (StateView {
            midi_dir: None,
            midi_file: None,
            sf2_dir: None,
            soundfont: None,
            playlist: None,
        }),
{
    reveal_strlit(" = ");
    assert(" = "@ =~= seq![' ', '=', ' ']);
    if s.midi_dir is Some && s.midi_file is Some && s.sf2_dir is Some && s.soundfont is Some
        && s.playlist is Some {
        assert(state::file_lines(s) =~= seq![
            "midi_dir"@ + " = "@ + (s.midi_dir->0).encode(),
            "midi_file"@ + " = "@ + (s.midi_file->0).encode(),
            "sf2_dir"@ + " = "@ + (s.sf2_dir->0).encode(),
            "soundfont"@ + " = "@ + (s.soundfont->0).encode(),
            "playlist"@ + " = "@ + raw::shown(s.playlist->0),
        ]);
    }
}

/// A place is written as its path, a member of an archive as `zip`, the path of
/// the archive and that inside it, with tabs between them.
pub proof fn lemma_places_written(p: Seq<char>, inner: Seq<char>)
    ensures
        LocView::Fs(p).encode() == raw::shown(p),
        (LocView::Zip { archive: p, inner }).encode() == "zip\t"@ + raw::shown(p) + "\t"@ + inner,
{
    reveal_strlit("zip\t");
    reveal_strlit("\t");
    assert("zip\t"@ =~= seq!['z', 'i', 'p', '\t']);
    assert("\t"@ =~= seq!['\t']);
}

// --- opening a playlist -----------------------------------------------------

/// A playlist that was asked for and read is open and shows, and the session is
/// remembered with it; one that cannot be read changes nothing, and why is said.
pub proof fn lemma_opened(
    a: AppView,
    path: Seq<char>,
    body: Result<Seq<char>, Seq<char>>,
    w: WorldView,
)
    ensures
        ({
            let b = a.opened_with(path, body, w);
            let d = lists::doc_at(path, body->Ok_0, w);
            &&& body is Ok ==> b.playlist.items == d.items && b.playlist.path == Some(path)
                && !b.playlist.dirty && (b.overlay matches Some(o) && o.source
                == app::Source::Playlist) && a.opened_effects(body) == a.save_effects()
            &&& body is Err ==> b == (AppView {
                message: Some("Cannot read "@ + raw::shown(path) + ": "@ + body->Err_0),
                ..a
            }) && a.opened_effects(body).len() == 0
            &&& b.now_playing == a.now_playing && b.state == a.state && b.soundfont == a.soundfont
        }),
{
    reveal(AppView::opened);
}

// --- the synth --------------------------------------------------------------

/// The audio drivers: the one that was chosen and no other; else the one of the
/// environment; else JACK, then PulseAudio, then ALSA.
pub proof fn lemma_drivers(d: Seq<char>, e: Option<Seq<char>>)
    ensures
        synth::drivers(Some(d), e) == seq![d],
        e is Some ==> synth::drivers(None, e) == seq![e->0],
        synth::drivers(None, None) == seq!["jack"@, "pulseaudio"@, "alsa"@],
        synth::connects(Some(d)) <==> d == "1"@ || d == "true"@ || d == "yes"@ || d == "on"@,
        !synth::connects(None),
{
}

/// A seek leads as many ticks on as it says, no further back than the start and
/// no further on than the end, where that is known.
pub proof fn lemma_seek_leads(cur: int, total: int, delta: int)
    requires
        cur + delta <= i32::MAX,
    ensures
        cur + delta < 0 ==> synth::tick_after(cur, total, delta) == 0,
        total > 0 && cur + delta > total ==> synth::tick_after(cur, total, delta) == total,
        0 <= cur + delta && (total <= 0 || cur + delta <= total) ==> synth::tick_after(
            cur,
            total,
            delta,
        ) == cur + delta,
{
}

} // verus!
