//! Persistence of the last session: the MIDI and SoundFont directories, the
//! last-played file, the loaded SoundFont and the open playlist, as a tiny
//! `key = value` text.

use crate::conf;
use crate::conf::{pair_text, push_line, read_line, ConfLine};
use crate::history;
use crate::history::{write_loc, Writing};
use crate::host::Host;
use crate::raw;
use crate::raw::shown_text;
use crate::text;
use crate::text::{same_text, split_lines};
use crate::vfs;
use crate::vfs::{LocView, Location};
use vstd::prelude::*;
use vstd::string::*;

verus! {

/// What is remembered of a session. Directories and the played file keep their
/// full location, so an archive (or a file inside one) is restored as such.
pub struct State {
    pub midi_dir: Option<Location>,
    pub midi_file: Option<Location>,
    pub sf2_dir: Option<Location>,
    pub soundfont: Option<Location>,
    /// The path of the open playlist.
    pub playlist: Option<String>,
}

/// What is remembered of a session, as texts.
#[verifier::ext_equal]
pub struct StateView {
    pub midi_dir: Option<LocView>,
    pub midi_file: Option<LocView>,
    pub sf2_dir: Option<LocView>,
    pub soundfont: Option<LocView>,
    pub playlist: Option<Seq<char>>,
}

impl View for State {
    type V = StateView;

    open spec fn view(&self) -> StateView {
        StateView {
            midi_dir: vfs::opt_view(self.midi_dir),
            midi_file: vfs::opt_view(self.midi_file),
            sf2_dir: vfs::opt_view(self.sf2_dir),
            soundfont: vfs::opt_view(self.soundfont),
            playlist: history::opt_text(self.playlist),
        }
    }
}

/// A session of which nothing is remembered.
pub open spec fn unset() -> StateView {
    StateView { midi_dir: None, midi_file: None, sf2_dir: None, soundfont: None, playlist: None }
}

impl Default for State {
    fn default() -> (r: State)
        ensures
            r@ == unset(),
    {
        State { midi_dir: None, midi_file: None, sf2_dir: None, soundfont: None, playlist: None }
    }
}

/// What is remembered with one more key as read; an unknown one says nothing.
pub open spec fn with_field(s: StateView, key: Seq<char>, val: Seq<char>) -> StateView {
    if key == "midi_dir"@ {
        StateView { midi_dir: Some(LocView::decode(val)), ..s }
    } else if key == "midi_file"@ {
        StateView { midi_file: Some(LocView::decode(val)), ..s }
    } else if key == "sf2_dir"@ {
        StateView { sf2_dir: Some(LocView::decode(val)), ..s }
    } else if key == "soundfont"@ {
        StateView { soundfont: Some(LocView::decode(val)), ..s }
    } else if key == "playlist"@ {
        StateView { playlist: Some(val), ..s }
    } else {
        s
    }
}

/// What the lines say together; a later line of a key replaces an earlier one.
pub open spec fn reading(lines: Seq<Seq<char>>) -> StateView
    decreases lines.len(),
{
    if lines.len() == 0 {
        unset()
    } else {
        let s = reading(lines.drop_last());
        match conf::line_view(lines.last(), seq![]) {
            conf::LineView::Pair { key, val } => with_field(s, key, val),
            _ => s,
        }
    }
}

/// What a file's text says.
pub open spec fn parsed(s: Seq<char>) -> StateView {
    reading(text::lines(s))
}

/// The line of an optional path, if it is given.
pub open spec fn path_line(key: Seq<char>, p: Option<Seq<char>>) -> Seq<Seq<char>> {
    match p {
        Some(x) => seq![conf::pair_line(key, raw::shown(x))],
        None => seq![],
    }
}

/// The lines of the file: one for each field that is set.
pub open spec fn file_lines(s: StateView) -> Seq<Seq<char>> {
    history::loc_line("midi_dir"@, s.midi_dir) + history::loc_line("midi_file"@, s.midi_file)
        + history::loc_line("sf2_dir"@, s.sf2_dir) + history::loc_line("soundfont"@, s.soundfont)
        + path_line("playlist"@, s.playlist)
}

pub proof fn lemma_keys_differ()
    ensures
        conf::is_key("midi_dir"@),
        conf::is_key("midi_file"@),
        conf::is_key("sf2_dir"@),
        conf::is_key("soundfont"@),
        conf::is_key("playlist"@),
        "midi_dir"@.len() == 8,
        "midi_file"@.len() == 9,
        "sf2_dir"@.len() == 7,
        "soundfont"@.len() == 9,
        "playlist"@.len() == 8,
        "midi_dir"@[0] == 'm',
        "midi_file"@[0] == 'm',
        "soundfont"@[0] == 's',
        "playlist"@[0] == 'p',
{
    reveal_strlit("midi_dir");
    reveal_strlit("midi_file");
    reveal_strlit("sf2_dir");
    reveal_strlit("soundfont");
    reveal_strlit("playlist");
}

fn set_field(s: State, key: &str, val: &str) -> (r: State)
    ensures
        r@ == with_field(s@, key@, val@),
{
    let mut s = s;
    proof {
        lemma_keys_differ();
    }
    if same_text(key, "midi_dir") {
        s.midi_dir = Some(Location::decode(val));
    } else if same_text(key, "midi_file") {
        s.midi_file = Some(Location::decode(val));
    } else if same_text(key, "sf2_dir") {
        s.sf2_dir = Some(Location::decode(val));
    } else if same_text(key, "soundfont") {
        s.soundfont = Some(Location::decode(val));
    } else if same_text(key, "playlist") {
        s.playlist = Some(val.to_owned());
    }
    s
}

/// Parse the `key = value` config body into a `State`.
pub fn parse_conf(body: &str) -> (r: State)
    ensures
        r@ == parsed(body@),
{
    let lines = split_lines(body);
    let ghost t = text::texts(lines@);
    let mut s = State::default();
    let mut i: usize = 0;
    let none = String::new();
    assert(none@ =~= seq![]);
    assert(t.take(0) =~= seq![]);
    while i < lines.len()
        invariant
            i <= lines@.len(),
            t == text::texts(lines@),
            none@ == Seq::<char>::empty(),
            s@ == reading(t.take(i as int)),
        decreases lines.len() - i,
    {
        proof {
            assert(t.take(i + 1).drop_last() =~= t.take(i as int));
            assert(t.take(i + 1).last() == lines@[i as int]@);
        }
        match read_line(lines[i].as_str(), none.as_str()) {
            ConfLine::Pair { key, val } => {
                s = set_field(s, key.as_str(), val.as_str());
            },
            _ => {},
        }
        i = i + 1;
    }
    assert(t.take(t.len() as int) =~= t);
    s
}

/// Render a `State` to the `key = value` config body (only set fields).
pub fn serialize(state: &State) -> (r: String)
    ensures
        r@ == conf::unlines(file_lines(state@)),
{
    let mut out = String::new();
    write_loc(&mut out, "midi_dir", &state.midi_dir);
    write_loc(&mut out, "midi_file", &state.midi_file);
    write_loc(&mut out, "sf2_dir", &state.sf2_dir);
    write_loc(&mut out, "soundfont", &state.soundfont);
    let ghost before = out@;
    let ghost v = path_line("playlist"@, state@.playlist);
    match &state.playlist {
        Some(p) => {
            let shown = shown_text(p.as_str());
            let line = pair_text("playlist", shown.as_str());
            push_line(&mut out, line.as_str());
            proof {
                assert(v.drop_last() =~= seq![]);
                reveal_with_fuel(conf::unlines, 2);
                assert(conf::unlines(v) =~= line@.push('\n'));
            }
        },
        None => {
            assert(out@ =~= before + conf::unlines(v));
        },
    }
    proof {
        let a = history::loc_line("midi_dir"@, state@.midi_dir);
        let b = history::loc_line("midi_file"@, state@.midi_file);
        let c = history::loc_line("sf2_dir"@, state@.sf2_dir);
        let d = history::loc_line("soundfont"@, state@.soundfont);
        conf::lemma_unlines_append(a, b);
        conf::lemma_unlines_append(a + b, c);
        conf::lemma_unlines_append(a + b + c, d);
        conf::lemma_unlines_append(a + b + c + d, v);
        assert(out@ =~= conf::unlines(file_lines(state@)));
    }
    out
}

/// What is remembered by a file or, without it, by an earlier one.
pub open spec fn remembered(body: Option<Seq<char>>, legacy: Option<Seq<char>>) -> StateView {
    match (body, legacy) {
        (Some(b), _) => parsed(b),
        (None, Some(b)) => parsed(b),
        (None, None) => unset(),
    }
}

/// The remembered session: what its file holds or, when that cannot be read,
/// what the file of the program's earlier name holds.
pub fn load(body: Option<String>, legacy: Option<String>) -> (r: State)
    ensures
        r@ == remembered(history::opt_text(body), history::opt_text(legacy)),
{
    match body {
        Some(b) => parse_conf(b.as_str()),
        None => match legacy {
            Some(b) => parse_conf(b.as_str()),
            None => State::default(),
        },
    }
}

/// What is to be written to remember a session; nothing without a
/// configuration directory.
pub fn save(state: &State, host: &Host) -> (r: Option<Writing>)
    ensures
        match host@.state_file() {
            Some(p) => r matches Some(w) && w.path@ == p && w.body@ == conf::unlines(
                file_lines(state@),
            ),
            None => r is None,
        },
{
    match host.config_path() {
        Some(path) => Some(Writing { path, body: serialize(state) }),
        None => None,
    }
}

// --- writing and reading back -----------------------------------------------

/// True for a session that the file can hold.
pub open spec fn state_storable(s: StateView) -> bool {
    &&& conf::opt_storable(s.midi_dir)
    &&& conf::opt_storable(s.midi_file)
    &&& conf::opt_storable(s.sf2_dir)
    &&& conf::opt_storable(s.soundfont)
    &&& s.playlist matches Some(p) ==> raw::is_text(p) && text::trim(p) == p && !p.contains('\n')
}

/// A line of an optional location, if it is there, sets its key.
proof fn lemma_read_loc(v: Seq<Seq<char>>, key: Seq<char>, l: Option<LocView>)
    requires
        conf::is_key(key),
        conf::opt_storable(l),
        conf::are_lines(v),
    ensures
        conf::are_lines(v + history::loc_line(key, l)),
        reading(v + history::loc_line(key, l)) == match l {
            Some(x) => with_field(reading(v), key, text::trim_end(x.encode())),
            None => reading(v),
        },
        l matches Some(x) ==> LocView::decode(text::trim_end(x.encode())) == x,
{
    match l {
        Some(x) => {
            conf::lemma_storable(x);
            conf::lemma_read_pair(key, x.encode(), seq![]);
            crate::history_laws::lemma_pair_is_line(key, x.encode());
            let line = conf::pair_line(key, x.encode());
            let w = v + history::loc_line(key, l);
            assert(w =~= v.push(line));
            assert(w.drop_last() =~= v);
        },
        None => {
            assert(v + history::loc_line(key, l) =~= v);
        },
    }
}

/// Reading the file that a session is written to gives the session back.
pub proof fn lemma_state_round_trip(s: StateView)
    requires
        state_storable(s),
    ensures
        parsed(conf::unlines(file_lines(s))) == s,
{
    lemma_keys_differ();
    let v0 = Seq::<Seq<char>>::empty();
    let v1 = v0 + history::loc_line("midi_dir"@, s.midi_dir);
    let v2 = v1 + history::loc_line("midi_file"@, s.midi_file);
    let v3 = v2 + history::loc_line("sf2_dir"@, s.sf2_dir);
    let v4 = v3 + history::loc_line("soundfont"@, s.soundfont);
    let v5 = v4 + path_line("playlist"@, s.playlist);
    lemma_read_loc(v0, "midi_dir"@, s.midi_dir);
    lemma_read_loc(v1, "midi_file"@, s.midi_file);
    lemma_read_loc(v2, "sf2_dir"@, s.sf2_dir);
    lemma_read_loc(v3, "soundfont"@, s.soundfont);
    match s.playlist {
        Some(p) => {
            text::lemma_trim_edges(p);
            conf::lemma_read_pair("playlist"@, p, seq![]);
            crate::history_laws::lemma_pair_is_line("playlist"@, p);
            let line = conf::pair_line("playlist"@, p);
            assert(v5 =~= v4.push(line));
            assert(v5.drop_last() =~= v4);
            assert(text::trim_end(p) == p);
        },
        None => {
            assert(v5 =~= v4);
        },
    }
    assert(v0 + history::loc_line("midi_dir"@, s.midi_dir) =~= history::loc_line(
        "midi_dir"@,
        s.midi_dir,
    ));
    assert(v5 =~= file_lines(s));
    assert(conf::are_lines(v5));
    conf::lemma_lines_unlines(v5);
}

} // verus!
