//! The command line, and what the program starts with.

use crate::history;
use crate::host::Host;
use crate::state::{State, StateView};
use crate::text;
use crate::text::{begins, same_text, split_once};
use crate::vfs;
use crate::vfs::{Disk, FileKind, LocView, Location};
use vstd::prelude::*;
use vstd::string::*;

verus! {

/// Parsed command line. `driver` is `None` unless `-R` was given.
#[derive(Debug)]
pub struct Cli {
    pub driver: Option<String>,
    pub midi_dir: Option<String>,
    pub sf2_dir: Option<String>,
    /// `--no-history`: keep the session's plays out of the history file.
    pub no_history: bool,
    /// `-p/--playlist`: a playlist file to open at launch.
    pub playlist: Option<String>,
}

/// A parsed command line, as texts.
#[verifier::ext_equal]
pub struct CliView {
    pub driver: Option<Seq<char>>,
    pub midi_dir: Option<Seq<char>>,
    pub sf2_dir: Option<Seq<char>>,
    pub no_history: bool,
    pub playlist: Option<Seq<char>>,
}

impl View for Cli {
    type V = CliView;

    open spec fn view(&self) -> CliView {
        CliView {
            driver: history::opt_text(self.driver),
            midi_dir: history::opt_text(self.midi_dir),
            sf2_dir: history::opt_text(self.sf2_dir),
            no_history: self.no_history,
            playlist: history::opt_text(self.playlist),
        }
    }
}

/// What was gathered from the arguments so far.
#[verifier::ext_equal]
pub struct Scan {
    pub driver: Option<Seq<char>>,
    pub no_history: bool,
    pub playlist: Option<Seq<char>>,
    pub positional: Seq<Seq<char>>,
}

/// What one argument (and perhaps the one after it) leads to.
#[verifier::ext_equal]
pub enum Next {
    /// Go on with this; `two` when the argument after it was its value.
    Go { scan: Scan, two: bool },
    /// The rest are positional.
    Rest,
    Fail { message: Seq<char> },
}

pub open spec fn is_driver(s: Seq<char>) -> bool {
    s == "jack"@ || s == "alsa"@
}

pub open spec fn unknown_driver(s: Seq<char>) -> Seq<char> {
    "unknown driver '"@ + s + "' (expected jack or alsa)"@
}

/// What stands after the first `=`.
pub open spec fn after_equals(s: Seq<char>) -> Seq<char> {
    match text::split_at_first(s, '=') {
        Some((_, v)) => v,
        None => seq![],
    }
}

/// The scan with the driver `val`, which is one of two.
pub open spec fn take_driver(scan: Scan, val: Seq<char>, two: bool) -> Next {
    if is_driver(val) {
        Next::Go { scan: Scan { driver: Some(val), ..scan }, two }
    } else {
        Next::Fail { message: unknown_driver(val) }
    }
}

/// What the argument `arg`, followed by `value`, leads to.
pub open spec fn next(scan: Scan, arg: Seq<char>, value: Option<Seq<char>>) -> Next {
    if arg == "-R"@ || arg == "--driver"@ {
        match value {
            Some(v) => take_driver(scan, v, true),
            None => Next::Fail { message: arg + " requires a value (jack or alsa)"@ },
        }
    } else if text::starts_with(arg, "-R="@) || text::starts_with(arg, "--driver="@) {
        take_driver(scan, after_equals(arg), false)
    } else if arg == "--no-history"@ {
        Next::Go { scan: Scan { no_history: true, ..scan }, two: false }
    } else if arg == "-p"@ || arg == "--playlist"@ {
        match value {
            Some(v) => Next::Go { scan: Scan { playlist: Some(v), ..scan }, two: true },
            None => Next::Fail { message: arg + " requires a playlist file"@ },
        }
    } else if text::starts_with(arg, "-p="@) || text::starts_with(arg, "--playlist="@) {
        let v = after_equals(arg);
        if v.len() == 0 {
            Next::Fail { message: arg + " requires a playlist file"@ }
        } else {
            Next::Go { scan: Scan { playlist: Some(v), ..scan }, two: false }
        }
    } else if arg == "--"@ {
        Next::Rest
    } else if text::starts_with(arg, "-"@) && arg != "-"@ {
        Next::Fail { message: "unknown option '"@ + arg + "'"@ }
    } else {
        Next::Go { scan: Scan { positional: scan.positional.push(arg), ..scan }, two: false }
    }
}

/// The arguments from the `i`-th on.
pub open spec fn scan_from(args: Seq<Seq<char>>, i: int, scan: Scan) -> Result<Scan, Seq<char>>
    decreases if i < args.len() { args.len() - i } else { 0 },
{
    if i < 0 || i >= args.len() {
        Ok(scan)
    } else {
        let value = if i + 1 < args.len() {
            Some(args[i + 1])
        } else {
            None
        };
        match next(scan, args[i], value) {
            Next::Go { scan: s, two } => scan_from(
                args,
                if two {
                    i + 2
                } else {
                    i + 1
                },
                s,
            ),
            Next::Rest => Ok(Scan { positional: scan.positional + args.skip(i + 1), ..scan }),
            Next::Fail { message } => Err(message),
        }
    }
}

/// What the arguments of a command line mean, or what is wrong with them.
pub open spec fn meaning(args: Seq<Seq<char>>) -> Result<CliView, Seq<char>> {
    match scan_from(
        args,
        0,
        Scan { driver: None, no_history: false, playlist: None, positional: seq![] },
    ) {
        Ok(s) => if s.positional.len() > 2 {
            Err(
                "too many positional arguments (expected at most MIDI_DIR and SOUNDFONT_DIR)"@,
            )
        } else {
            Ok(
                CliView {
                    driver: s.driver,
                    midi_dir: if s.positional.len() > 0 {
                        Some(s.positional[0])
                    } else {
                        None
                    },
                    sf2_dir: if s.positional.len() > 1 {
                        Some(s.positional[1])
                    } else {
                        None
                    },
                    no_history: s.no_history,
                    playlist: s.playlist,
                },
            )
        },
        Err(m) => Err(m),
    }
}

/// What was gathered so far, with its texts.
struct Draft {
    driver: Option<String>,
    no_history: bool,
    playlist: Option<String>,
    positional: Vec<String>,
}

impl Draft {
    spec fn as_scan(&self) -> Scan {
        Scan {
            driver: history::opt_text(self.driver),
            no_history: self.no_history,
            playlist: history::opt_text(self.playlist),
            positional: text::texts(self.positional@),
        }
    }
}

/// How an argument was taken.
enum Taken {
    One,
    Two,
    Rest,
    Fail(String),
}

fn glued(a: &str, b: &str) -> (r: String)
    ensures
        r@ == a@ + b@,
{
    let mut r = a.to_owned();
    r.append(b);
    r
}

fn glued3(a: &str, b: &str, c: &str) -> (r: String)
    ensures
        r@ == a@ + b@ + c@,
{
    let mut r = a.to_owned();
    r.append(b);
    r.append(c);
    r
}

fn equals_value(s: &str) -> (r: String)
    ensures
        r@ == after_equals(s@),
{
    match split_once(s, '=') {
        Some((_, v)) => v,
        None => {
            let r = String::new();
            assert(r@ =~= seq![]);
            r
        },
    }
}

impl Draft {
    fn set_driver(&mut self, val: &str, two: bool) -> (r: Taken)
        ensures
            taken_as(
                r,
                *final(self),
                *old(self),
                take_driver(old(self).as_scan(), val@, two),
            ),
    {
        if same_text(val, "jack") || same_text(val, "alsa") {
            self.driver = Some(val.to_owned());
            if two {
                Taken::Two
            } else {
                Taken::One
            }
        } else {
            Taken::Fail(glued3("unknown driver '", val, "' (expected jack or alsa)"))
        }
    }

    fn take(&mut self, arg: &str, value: Option<&String>) -> (r: Taken)
        ensures
            taken_as(
                r,
                *final(self),
                *old(self),
                next(
                    old(self).as_scan(),
                    arg@,
                    match value {
                        Some(v) => Some(v@),
                        None => None,
                    },
                ),
            ),
    {
        if same_text(arg, "-R") || same_text(arg, "--driver") {
            match value {
                Some(v) => self.set_driver(v.as_str(), true),
                None => Taken::Fail(glued(arg, " requires a value (jack or alsa)")),
            }
        } else if begins(arg, "-R=") || begins(arg, "--driver=") {
            let v = equals_value(arg);
            self.set_driver(v.as_str(), false)
        } else if same_text(arg, "--no-history") {
            self.no_history = true;
            Taken::One
        } else if same_text(arg, "-p") || same_text(arg, "--playlist") {
            match value {
                Some(v) => {
                    self.playlist = Some(v.clone());
                    Taken::Two
                },
                None => Taken::Fail(glued(arg, " requires a playlist file")),
            }
        } else if begins(arg, "-p=") || begins(arg, "--playlist=") {
            let v = equals_value(arg);
            if v.as_str().unicode_len() == 0 {
                Taken::Fail(glued(arg, " requires a playlist file"))
            } else {
                self.playlist = Some(v);
                Taken::One
            }
        } else if same_text(arg, "--") {
            Taken::Rest
        } else if begins(arg, "-") && !same_text(arg, "-") {
            Taken::Fail(glued3("unknown option '", arg, "'"))
        } else {
            let ghost before = text::texts(self.positional@);
            self.positional.push(arg.to_owned());
            assert(text::texts(self.positional@) =~= before.push(arg@));
            Taken::One
        }
    }
}

/// True when the argument was taken as it should be.
spec fn taken_as(r: Taken, new: Draft, before: Draft, n: Next) -> bool {
    match n {
        Next::Go { scan, two } => new.as_scan() == scan && (if two {
            r is Two
        } else {
            r is One
        }),
        Next::Rest => r is Rest && new.as_scan() == before.as_scan(),
        Next::Fail { message } => r matches Taken::Fail(m) && m@ == message,
    }
}

/// Hand-rolled parser. `-R/--driver` takes jack|alsa; `-p/--playlist` takes a
/// file; up to two positionals are the MIDI and SoundFont directories. Returns
/// `Err(message)` on misuse.
pub fn parse_args(args: &Vec<String>) -> (r: Result<Cli, String>)
    ensures
        match meaning(text::texts(args@)) {
            Ok(c) => r matches Ok(x) && x@ == c,
            Err(m) => r matches Err(x) && x@ == m,
        },
{
    let ghost t = text::texts(args@);
    let mut d = Draft {
        driver: None,
        no_history: false,
        playlist: None,
        positional: Vec::new(),
    };
    let ghost first = Scan { driver: None, no_history: false, playlist: None, positional: seq![] };
    assert(d.as_scan() =~= first);
    let ghost whole = scan_from(t, 0, first);
    let mut i: usize = 0;
    let len: usize = args.len();
    while i < len
        invariant_except_break
            scan_from(t, i as int, d.as_scan()) == whole,
        invariant
            i <= len,
            len == args@.len(),
            t == text::texts(args@),
            whole == scan_from(t, 0, first),
            first == (Scan {
                driver: None,
                no_history: false,
                playlist: None,
                positional: seq![],
            }),
        ensures
            whole == Ok::<Scan, Seq<char>>(d.as_scan()),
        decreases len - i,
    {
        let value: Option<&String> = if i + 1 < len { Some(&args[i + 1]) } else { None };
        proof {
            assert(t[i as int] == args@[i as int]@);
            if i + 1 < len {
                assert(t[i + 1] == args@[i + 1]@);
            }
        }
        match d.take(args[i].as_str(), value) {
            Taken::One => {
                i = i + 1;
            },
            Taken::Two => {
                i = i + 2;
            },
            Taken::Rest => {
                let ghost before = text::texts(d.positional@);
                let ghost scan = d.as_scan();
                let mut j: usize = i + 1;
                assert(before + t.subrange(i + 1, i + 1) =~= before);
                while j < len
                    invariant
                        i + 1 <= j <= len,
                        len == args@.len(),
                        t == text::texts(args@),
                        text::texts(d.positional@) == before + t.subrange(i + 1, j as int),
                        d.as_scan() == (Scan { positional: text::texts(d.positional@), ..scan }),
                    decreases len - j,
                {
                    let ghost p = text::texts(d.positional@);
                    d.positional.push(args[j].clone());
                    proof {
                        assert(text::texts(d.positional@) =~= p.push(args@[j as int]@));
                        assert(t.subrange(i + 1, j + 1) =~= t.subrange(i + 1, j as int).push(
                            t[j as int],
                        ));
                        assert(before + t.subrange(i + 1, j + 1) =~= p.push(t[j as int]));
                    }
                    j = j + 1;
                }
                assert(t.subrange(i + 1, len as int) =~= t.skip(i + 1));
                break;
            },
            Taken::Fail(m) => {
                return Err(m);
            },
        }
    }
    if d.positional.len() > 2 {
        return Err(
            "too many positional arguments (expected at most MIDI_DIR and SOUNDFONT_DIR)".to_owned(),
        );
    }
    let midi_dir = if d.positional.len() > 0 {
        Some(d.positional[0].clone())
    } else {
        None
    };
    let sf2_dir = if d.positional.len() > 1 {
        Some(d.positional[1].clone())
    } else {
        None
    };
    Ok(
        Cli {
            driver: d.driver,
            midi_dir,
            sf2_dir,
            no_history: d.no_history,
            playlist: d.playlist,
        },
    )
}

// --- starting up ------------------------------------------------------------

/// What a directory argument comes to: where it is, or a warning.
pub open spec fn checked_dir(
    arg: Option<Seq<char>>,
    label: Seq<char>,
    disk: Map<Seq<char>, FileKind>,
    readable: bool,
) -> (Option<LocView>, Option<Seq<char>>) {
    match arg {
        None => (None, None),
        Some(p) => if !vfs::dir_on_disk(disk, p) {
            (None, Some(label + " '"@ + p + "' is not a directory"@))
        } else if !readable {
            (None, Some(label + " '"@ + p + "' is not readable"@))
        } else {
            (Some(LocView::Fs(p)), None)
        },
    }
}

/// Turn a directory argument into a `Location`, or `None` (pushing a warning)
/// if it was given but is not a usable directory. `label` names the argument in
/// the warning (e.g. "MIDI_DIR"). A missing argument yields `None` silently.
/// `readable` is whether the directory could be listed.
pub fn validate_dir(
    arg: &Option<String>,
    label: &str,
    disk: &Disk,
    readable: bool,
    warnings: &mut Vec<String>,
) -> (r: Option<Location>)
    ensures
        vfs::opt_view(r) == checked_dir(history::opt_text(*arg), label@, disk@, readable).0,
        match checked_dir(history::opt_text(*arg), label@, disk@, readable).1 {
            Some(w) => text::texts(final(warnings)@) == text::texts(old(warnings)@).push(w),
            None => final(warnings)@ == old(warnings)@,
        },
{
    match arg {
        None => None,
        Some(p) => {
            let ghost before = text::texts(warnings@);
            let bad: Option<&str> = if !disk.is_dir(p.as_str()) {
                Some("' is not a directory")
            } else if !readable {
                Some("' is not readable")
            } else {
                None
            };
            match bad {
                Some(why) => {
                    let mut w = label.to_owned();
                    w.append(" '");
                    w.append(p.as_str());
                    w.append(why);
                    warnings.push(w);
                    assert(text::texts(warnings@) =~= before.push(w@));
                    None
                },
                None => Some(Location::Fs(p.clone())),
            }
        },
    }
}

/// A saved directory, when it can still be opened.
pub open spec fn saved_dir(
    l: Option<LocView>,
    disk: Map<Seq<char>, vfs::FileKind>,
) -> Option<LocView> {
    match l {
        Some(x) => if x.is_openable_dir(disk) {
            Some(x)
        } else {
            None
        },
        None => None,
    }
}

/// The home directory, or the working directory when it is not known.
pub open spec fn home_dir(home: Option<Seq<char>>) -> LocView {
    LocView::Fs(
        match home {
            Some(h) => h,
            None => seq!['.'],
        },
    )
}

/// The first of the two that is there, else the third.
pub open spec fn first_of(a: Option<LocView>, b: Option<LocView>, c: LocView) -> LocView {
    match (a, b) {
        (Some(x), _) => x,
        (None, Some(x)) => x,
        (None, None) => c,
    }
}

fn keep_openable(l: &Option<Location>, disk: &Disk) -> (r: Option<Location>)
    ensures
        vfs::opt_view(r) == saved_dir(vfs::opt_view(*l), disk@),
{
    match l {
        Some(x) => if x.is_openable_dir(disk) {
            Some(x.clone())
        } else {
            None
        },
        None => None,
    }
}

fn pick(a: Option<Location>, b: Option<Location>, c: Location) -> (r: Location)
    ensures
        r@ == first_of(vfs::opt_view(a), vfs::opt_view(b), c@),
{
    match a {
        Some(x) => x,
        None => match b {
            Some(x) => x,
            None => c,
        },
    }
}

/// Where the MIDI panel and the SoundFont panel start.
pub open spec fn start_places(
    midi_arg: Option<LocView>,
    sf2_arg: Option<LocView>,
    saved: StateView,
    disk: Map<Seq<char>, FileKind>,
    home: Option<Seq<char>>,
) -> (LocView, LocView) {
    (
        first_of(midi_arg, saved_dir(saved.midi_dir, disk), home_dir(home)),
        first_of(sf2_arg, saved_dir(saved.sf2_dir, disk), home_dir(home)),
    )
}

/// The directories the two panels start in. A directory given on the command
/// line comes first, then the one remembered from the last session if it can
/// still be opened, then `$HOME`.
pub fn start_dirs(
    midi_arg: Option<Location>,
    sf2_arg: Option<Location>,
    saved: &State,
    disk: &Disk,
    host: &Host,
) -> (r: (Location, Location))
    ensures
        (r.0@, r.1@) == start_places(
            vfs::opt_view(midi_arg),
            vfs::opt_view(sf2_arg),
            saved@,
            disk@,
            host@.home,
        ),
{
    let home = match &host.home {
        Some(h) => Location::Fs(h.clone()),
        None => {
            let mut d = String::new();
            d.push('.');
            assert(d@ =~= seq!['.']);
            Location::Fs(d)
        },
    };
    let midi = pick(midi_arg, keep_openable(&saved.midi_dir, disk), home.clone());
    let sf2 = pick(sf2_arg, keep_openable(&saved.sf2_dir, disk), home);
    (midi, sf2)
}

/// A remembered location, if what it names is still there.
pub open spec fn still_there(l: Option<LocView>, disk: Map<Seq<char>, FileKind>) -> Option<LocView> {
    match l {
        Some(x) => if x.is_present(disk) {
            l
        } else {
            None
        },
        None => None,
    }
}

/// The remembered location, if it is still there: the cursor returns to the
/// track played last, and the last SoundFont is loaded again.
pub fn still_present(l: &Option<Location>, disk: &Disk) -> (r: Option<Location>)
    ensures
        vfs::opt_view(r) == still_there(vfs::opt_view(*l), disk@),
{
    match l {
        Some(x) => if x.is_present(disk) {
            Some(x.clone())
        } else {
            None
        },
        None => None,
    }
}

/// The playlist to open at launch.
#[derive(Debug)]
pub enum Launch {
    /// The one named on the command line, shown in its overlay.
    Show(String),
    /// The one open at the end of the last session, quietly.
    Reopen(String),
    Nothing,
}

/// The playlist to open at launch, as text.
#[verifier::ext_equal]
pub enum LaunchView {
    Show(Seq<char>),
    Reopen(Seq<char>),
    Nothing,
}

impl View for Launch {
    type V = LaunchView;

    open spec fn view(&self) -> LaunchView {
        match self {
            Launch::Show(p) => LaunchView::Show(p@),
            Launch::Reopen(p) => LaunchView::Reopen(p@),
            Launch::Nothing => LaunchView::Nothing,
        }
    }
}

/// Which playlist a launch opens.
pub open spec fn launched(
    named: Option<Seq<char>>,
    saved: StateView,
    disk: Map<Seq<char>, FileKind>,
) -> LaunchView {
    match (named, saved.playlist) {
        (Some(p), _) => LaunchView::Show(p),
        (None, Some(p)) => if vfs::file_on_disk(disk, p) {
            LaunchView::Reopen(p)
        } else {
            LaunchView::Nothing
        },
        (None, None) => LaunchView::Nothing,
    }
}

/// The playlist to open at launch: the one named on the command line, or else
/// the one open last session, if its file is still there.
pub fn launch_list(named: &Option<String>, saved: &State, disk: &Disk) -> (r: Launch)
    ensures
        r@ == launched(history::opt_text(*named), saved@, disk@),
{
    match named {
        Some(p) => Launch::Show(p.clone()),
        None => match &saved.playlist {
            Some(p) => if disk.is_file(p.as_str()) {
                Launch::Reopen(p.clone())
            } else {
                Launch::Nothing
            },
            None => Launch::Nothing,
        },
    }
}

/// The texts with a separator between each two.
pub open spec fn joined(v: Seq<Seq<char>>, sep: Seq<char>) -> Seq<char>
    decreases v.len(),
{
    if v.len() == 0 {
        seq![]
    } else if v.len() == 1 {
        v[0]
    } else {
        joined(v.drop_last(), sep) + sep + v.last()
    }
}

/// What the banner says with these warnings before its own message.
pub open spec fn banner(warnings: Seq<Seq<char>>, message: Option<Seq<char>>) -> Option<Seq<char>> {
    if warnings.len() == 0 {
        message
    } else {
        Some(
            joined(
                match message {
                    Some(m) => warnings.push(m),
                    None => warnings,
                },
                "; "@,
            ),
        )
    }
}

/// The banner shown at launch: the warnings about the arguments, then whatever
/// the banner held already.
pub fn fold_warnings(warnings: &Vec<String>, message: Option<String>) -> (r: Option<String>)
    ensures
        history::opt_text(r) == banner(text::texts(warnings@), history::opt_text(message)),
{
    if warnings.len() == 0 {
        return message;
    }
    let ghost t = text::texts(warnings@);
    let mut out = warnings[0].clone();
    let mut i: usize = 1;
    assert(t.take(1) =~= seq![warnings@[0]@]);
    while i < warnings.len()
        invariant
            1 <= i <= warnings@.len(),
            t == text::texts(warnings@),
            out@ == joined(t.take(i as int), "; "@),
        decreases warnings.len() - i,
    {
        out.append("; ");
        out.append(warnings[i].as_str());
        proof {
            assert(t.take(i + 1).drop_last() =~= t.take(i as int));
            assert(t.take(i + 1).last() == warnings@[i as int]@);
        }
        i = i + 1;
    }
    assert(t.take(t.len() as int) =~= t);
    match message {
        Some(m) => {
            out.append("; ");
            out.append(m.as_str());
            assert(t.push(m@).drop_last() =~= t);
        },
        None => {},
    }
    Some(out)
}

} // verus!
