//! Favourites: the (track, SoundFont) pairs the user starred, in the order they
//! play as a playlist.
//!
//! A favourite is always a *pair*: the same tune starred with three fonts is
//! three favourites, and the playlist then plays it three times over, once per
//! font. This is a separate store from the playing [history](crate::history),
//! not a flag on it. Play counts are the one thing not duplicated here: they
//! are read back out of the history.
//!
//! Kept in the same stanza style as the history. Unlike the history, the order
//! of the file is meaningful — it is the playlist order — so it is never
//! re-sorted on load.

use crate::ascii;
use crate::ascii::{dec_text, parse_number};
use crate::calendar;
use crate::calendar::fmt_stamp_at;
use crate::conf;
use crate::conf::{pair_text, push_line, read_line, ConfLine};
use crate::history;
use crate::history::{filter_rows, is_gone, History, Row, RowView, Writing};
use crate::text;
use crate::text::{same_text, split_lines};
use crate::vfs;
use crate::vfs::{Disk, FileKind, LocKey, LocView, Location};
use vstd::prelude::*;
use vstd::string::*;

verus! {

/// One starred (track, SoundFont) pair.
#[derive(Debug)]
pub struct Fav {
    pub midi: Location,
    pub soundfont: Location,
    /// Unix seconds when it was starred.
    pub added: u64,
}

/// A starred pair, with its locations as texts.
#[verifier::ext_equal]
pub struct FavView {
    pub midi: LocView,
    pub soundfont: LocView,
    pub added: u64,
}

impl View for Fav {
    type V = FavView;

    open spec fn view(&self) -> FavView {
        FavView { midi: self.midi@, soundfont: self.soundfont@, added: self.added }
    }
}

impl FavView {
    /// What pair this is.
    pub open spec fn key(self) -> (LocKey, LocKey) {
        (self.midi.key(), self.soundfont.key())
    }
}

impl Clone for Fav {
    fn clone(&self) -> (r: Self)
        ensures
            r == *self,
    {
        Fav { midi: self.midi.clone(), soundfont: self.soundfont.clone(), added: self.added }
    }
}

/// The pairs in a list.
pub open spec fn fav_views(v: Seq<Fav>) -> Seq<FavView> {
    v.map_values(|f: Fav| f@)
}

/// The starred pairs plus where they are persisted. A store with no `path` (the
/// default) keeps them for the session only and is never written.
pub struct Favourites {
    entries: Vec<Fav>,
    path: Option<String>,
    dirty: bool,
}

/// The pairs in playlist order, their path and whether they were changed since
/// they were last written.
#[verifier::ext_equal]
pub struct FavouritesView {
    pub entries: Seq<FavView>,
    pub path: Option<Seq<char>>,
    pub dirty: bool,
}

impl View for Favourites {
    type V = FavouritesView;

    closed spec fn view(&self) -> FavouritesView {
        FavouritesView {
            entries: fav_views(self.entries@),
            path: history::opt_text(self.path),
            dirty: self.dirty,
        }
    }
}

/// Where the pair is, or the length of `s`.
pub open spec fn find_fav(s: Seq<FavView>, k: (LocKey, LocKey)) -> int
    decreases s.len(),
{
    if s.len() == 0 {
        0
    } else if s[0].key() == k {
        0
    } else {
        1 + find_fav(s.drop_first(), k)
    }
}

/// True when the pair is starred.
pub open spec fn has_pair(s: Seq<FavView>, midi: LocView, soundfont: LocView) -> bool {
    find_fav(s, (midi.key(), soundfont.key())) < s.len()
}

/// True when the track is starred with some font.
pub open spec fn has_midi(s: Seq<FavView>, midi: LocView) -> bool {
    exists|i: int| 0 <= i < s.len() && (#[trigger] s[i]).midi.key() == midi.key()
}

/// True when the font is starred with some track.
pub open spec fn has_soundfont(s: Seq<FavView>, soundfont: LocView) -> bool {
    exists|i: int| 0 <= i < s.len() && (#[trigger] s[i]).soundfont.key() == soundfont.key()
}

/// The list once the star on a pair was toggled: without it, or with it at the
/// end.
pub open spec fn toggled(
    s: Seq<FavView>,
    midi: LocView,
    soundfont: LocView,
    now: u64,
) -> Seq<FavView> {
    let i = find_fav(s, (midi.key(), soundfont.key()));
    if i < s.len() {
        s.remove(i)
    } else {
        s.push(FavView { midi, soundfont, added: now })
    }
}

/// `s` with the items at `a` and `b` exchanged.
pub open spec fn swapped<T>(s: Seq<T>, a: int, b: int) -> Seq<T> {
    s.update(a, s[b]).update(b, s[a])
}

/// The row of the pair at position `i`.
pub open spec fn fav_row(
    f: FavView,
    i: int,
    log: Seq<history::EntryView>,
    disk: Map<Seq<char>, FileKind>,
) -> RowView {
    RowView {
        midi: Some(f.midi),
        soundfont: Some(f.soundfont),
        when: f.added,
        plays: history::pair_plays(log, f.midi, f.soundfont),
        idxs: seq![i as usize],
        gone: history::gone(Some(f.midi), Some(f.soundfont), disk),
    }
}

/// One row per favourite, in list order.
pub open spec fn fav_rows(
    s: Seq<FavView>,
    log: Seq<history::EntryView>,
    disk: Map<Seq<char>, FileKind>,
) -> Seq<RowView> {
    s.map(|i: int, f: FavView| fav_row(f, i, log, disk))
}

// --- the file ---------------------------------------------------------------

/// What starts a record in the file.
pub open spec fn fav_mark() -> Seq<char> {
    seq!['[', 'f', 'a', 'v', ']']
}

/// A record as far as it was read.
#[verifier::ext_equal]
pub struct PartView {
    pub midi: Option<LocView>,
    pub soundfont: Option<LocView>,
    pub added: u64,
}

/// What was read of a file so far: the whole pairs, and the record that the
/// next lines belong to.
#[verifier::ext_equal]
pub struct Reading {
    pub done: Seq<FavView>,
    pub cur: Option<PartView>,
}

impl Reading {
    /// A record counts once it has both sides.
    pub open spec fn finish(self) -> Seq<FavView> {
        match self.cur {
            Some(PartView { midi: Some(midi), soundfont: Some(soundfont), added }) => self.done.push(
                FavView { midi, soundfont, added },
            ),
            _ => self.done,
        }
    }

    pub open spec fn step(self, line: conf::LineView) -> Reading {
        match line {
            conf::LineView::Skip => self,
            conf::LineView::Mark => Reading {
                done: self.finish(),
                cur: Some(PartView { midi: None, soundfont: None, added: 0 }),
            },
            conf::LineView::Pair { key, val } => match self.cur {
                Some(e) => Reading { done: self.done, cur: Some(with_field(e, key, val)) },
                None => self,
            },
        }
    }
}

/// A record with one of its fields as read; an unknown key says nothing.
pub open spec fn with_field(e: PartView, key: Seq<char>, val: Seq<char>) -> PartView {
    if key == "added"@ {
        PartView {
            added: match ascii::parse_dec(val, u64::MAX as nat) {
                Some(n) => n as u64,
                None => 0,
            },
            ..e
        }
    } else if key == "midi"@ {
        PartView { midi: Some(LocView::decode(val)), ..e }
    } else if key == "sf"@ {
        PartView { soundfont: Some(LocView::decode(val)), ..e }
    } else {
        e
    }
}

pub open spec fn reading(lines: Seq<Seq<char>>) -> Reading
    decreases lines.len(),
{
    if lines.len() == 0 {
        Reading { done: seq![], cur: None }
    } else {
        reading(lines.drop_last()).step(conf::line_view(lines.last(), fav_mark()))
    }
}

/// The pairs that a file's text holds.
pub open spec fn parsed(s: Seq<char>) -> Seq<FavView> {
    reading(text::lines(s)).finish()
}

/// The lines of a pair.
pub open spec fn fav_lines(f: FavView, offset: int) -> Seq<Seq<char>> {
    seq![
        seq![],
        "# "@ + calendar::stamp_at(f.added, offset, true),
        fav_mark(),
        conf::pair_line("added"@, ascii::dec(f.added as nat)),
        conf::pair_line("midi"@, f.midi.encode()),
        conf::pair_line("sf"@, f.soundfont.encode()),
    ]
}

/// The lines of the first `n` pairs.
pub open spec fn favs_lines(s: Seq<FavView>, n: int, offsets: Seq<i64>) -> Seq<Seq<char>>
    decreases n,
{
    if n <= 0 {
        seq![]
    } else {
        favs_lines(s, n - 1, offsets) + fav_lines(s[n - 1], history::offset_at(offsets, n - 1))
    }
}

/// The lines of the file: the pairs in playlist order, each time also spelled
/// out in local time as a comment.
pub open spec fn file_lines(s: Seq<FavView>, offsets: Seq<i64>) -> Seq<Seq<char>> {
    seq![
        "# voxfont favourites v1"@,
        "# Track + SoundFont pairs, in the order they play. Times below are local."@,
    ] + favs_lines(s, s.len() as int, offsets)
}

/// What is to be written of a list, and where: nothing when it has not changed,
/// or has no file.
pub open spec fn writing(v: FavouritesView, offsets: Seq<i64>) -> Option<(Seq<char>, Seq<char>)> {
    if v.dirty && v.path is Some {
        Some((v.path->0, conf::unlines(file_lines(v.entries, offsets))))
    } else {
        None
    }
}

/// A store as it is when read from a file that holds `body`.
pub open spec fn loaded(path: Seq<char>, body: Option<Seq<char>>) -> FavouritesView {
    FavouritesView {
        entries: match body {
            Some(b) => parsed(b),
            None => seq![],
        },
        path: Some(path),
        dirty: false,
    }
}

// --- working on the list ----------------------------------------------------

pub proof fn lemma_find_fav(s: Seq<FavView>, k: (LocKey, LocKey))
    ensures
        0 <= find_fav(s, k) <= s.len(),
        find_fav(s, k) < s.len() ==> s[find_fav(s, k)].key() == k,
        forall|i: int| 0 <= i < find_fav(s, k) ==> (#[trigger] s[i]).key() != k,
    decreases s.len(),
{
    if s.len() > 0 && s[0].key() != k {
        let t = s.drop_first();
        lemma_find_fav(t, k);
        assert forall|i: int| 0 <= i < find_fav(s, k) implies (#[trigger] s[i]).key() != k by {
            if i > 0 {
                assert(s[i] == t[i - 1]);
            }
        }
    }
}

pub proof fn lemma_find_fav_is(s: Seq<FavView>, k: (LocKey, LocKey), n: int)
    requires
        0 <= n <= s.len(),
        n < s.len() ==> s[n].key() == k,
        forall|i: int| 0 <= i < n ==> (#[trigger] s[i]).key() != k,
    ensures
        find_fav(s, k) == n,
{
    lemma_find_fav(s, k);
    let f = find_fav(s, k);
    if f < n {
        assert(s[f].key() == k);
    }
    if n < f {
        assert(s[n].key() != k);
    }
}

impl Default for Favourites {
    /// An empty list that is never written.
    fn default() -> (r: Favourites)
        ensures
            r@ == (FavouritesView { entries: seq![], path: None, dirty: false }),
    {
        let r = Favourites { entries: Vec::new(), path: None, dirty: false };
        assert(r@.entries =~= seq![]);
        r
    }
}

impl Favourites {
    /// The favourites kept in the configuration directory: the file's path and
    /// what it holds, when there is such a directory.
    pub fn load(file: Option<(String, Option<String>)>) -> (r: Favourites)
        ensures
            r@ == (match file {
                Some((path, body)) => loaded(path@, history::opt_text(body)),
                None => FavouritesView { entries: seq![], path: None, dirty: false },
            }),
    {
        match file {
            Some((path, body)) => Favourites::load_at(path, body),
            None => Favourites::default(),
        }
    }

    /// A store held at `path`, whose file holds `body`; `None` when it could
    /// not be read.
    pub fn load_at(path: String, body: Option<String>) -> (r: Favourites)
        ensures
            r@ == loaded(path@, history::opt_text(body)),
    {
        let entries = match body {
            Some(b) => parse(b.as_str()),
            None => Vec::new(),
        };
        proof {
            if body is None {
                assert(fav_views(entries@) =~= seq![]);
            }
        }
        Favourites { entries, path: Some(path), dirty: false }
    }

    /// What is to be written, if the list changed and a path is set. `offsets`
    /// gives the local offset from UTC at the time of each star.
    pub fn save(&self, offsets: &Vec<i64>) -> (r: Option<Writing>)
        ensures
            match writing(self@, offsets@) {
                Some((path, body)) => r matches Some(w) && w.path@ == path && w.body@ == body,
                None => r is None,
            },
    {
        if !self.dirty {
            return None;
        }
        match &self.path {
            Some(p) => Some(Writing { path: p.clone(), body: serialize(&self.entries, offsets) }),
            None => None,
        }
    }

    /// The list has been written.
    pub fn saved(&mut self)
        ensures
            final(self)@ == (FavouritesView { dirty: false, ..old(self)@ }),
    {
        self.dirty = false;
    }

    /// Star the pair, or un-star it if it is already starred. Returns true when
    /// it was added. New favourites go to the end, since the order is the
    /// playlist order and a star should not reshuffle what is queued.
    pub fn toggle(&mut self, midi: Location, soundfont: Location, now: u64) -> (added: bool)
        ensures
            final(self)@ == (FavouritesView {
                entries: toggled(old(self)@.entries, midi@, soundfont@, now),
                dirty: true,
                ..old(self)@
            }),
            added == !has_pair(old(self)@.entries, midi@, soundfont@),
    {
        let ghost s = self@.entries;
        match self.position_of(&midi, &soundfont) {
            Some(i) => {
                self.entries.remove(i);
                self.dirty = true;
                assert(self@.entries =~= s.remove(i as int));
                false
            },
            None => {
                self.entries.push(Fav { midi, soundfont, added: now });
                self.dirty = true;
                assert(self@.entries =~= toggled(s, midi@, soundfont@, now));
                true
            },
        }
    }

    /// Drop the favourite at `idx` (the entry behind one displayed row).
    pub fn remove(&mut self, idx: usize)
        ensures
            final(self)@ == if idx < old(self)@.entries.len() {
                FavouritesView {
                    entries: old(self)@.entries.remove(idx as int),
                    dirty: true,
                    ..old(self)@
                }
            } else {
                old(self)@
            },
    {
        if idx < self.entries.len() {
            let ghost s = self@.entries;
            self.entries.remove(idx);
            self.dirty = true;
            assert(self@.entries =~= s.remove(idx as int));
        }
    }

    /// Exchange two entries, which is how the overlay reorders the playlist.
    pub fn swap(&mut self, a: usize, b: usize)
        ensures
            final(self)@ == if a < old(self)@.entries.len() && b < old(self)@.entries.len() && a
                != b {
                FavouritesView {
                    entries: swapped(old(self)@.entries, a as int, b as int),
                    dirty: true,
                    ..old(self)@
                }
            } else {
                old(self)@
            },
    {
        let n: usize = self.entries.len();
        if a < n && b < n && a != b {
            let ghost s = self@.entries;
            let x = self.entries[a].clone();
            let y = self.entries[b].clone();
            self.entries.set(a, y);
            self.entries.set(b, x);
            self.dirty = true;
            assert(self@.entries =~= swapped(s, a as int, b as int));
        }
    }

    /// True when this exact pair is starred.
    pub fn is_pair(&self, midi: &Location, soundfont: &Location) -> (r: bool)
        ensures
            r == has_pair(self@.entries, midi@, soundfont@),
    {
        self.position_of(midi, soundfont).is_some()
    }

    /// True when the track is starred with *some* font — the hollow star in the
    /// MIDI panel, which says "you have starred this tune, but not through the
    /// font loaded right now".
    pub fn has_track(&self, midi: &Location) -> (r: bool)
        ensures
            r == has_midi(self@.entries, midi@),
    {
        let ghost s = self@.entries;
        let mut i: usize = 0;
        while i < self.entries.len()
            invariant
                i <= self.entries@.len(),
                s == fav_views(self.entries@),
                forall|k: int| 0 <= k < i ==> (#[trigger] s[k]).midi.key() != midi@.key(),
            decreases self.entries.len() - i,
        {
            assert(s[i as int] == self.entries@[i as int]@);
            if self.entries[i].midi == *midi {
                return true;
            }
            i = i + 1;
        }
        false
    }

    /// True when the font is starred with *some* track.
    pub fn has_font(&self, soundfont: &Location) -> (r: bool)
        ensures
            r == has_soundfont(self@.entries, soundfont@),
    {
        let ghost s = self@.entries;
        let mut i: usize = 0;
        while i < self.entries.len()
            invariant
                i <= self.entries@.len(),
                s == fav_views(self.entries@),
                forall|k: int| 0 <= k < i ==> (#[trigger] s[k]).soundfont.key() != soundfont@.key(),
            decreases self.entries.len() - i,
        {
            assert(s[i as int] == self.entries@[i as int]@);
            if self.entries[i].soundfont == *soundfont {
                return true;
            }
            i = i + 1;
        }
        false
    }

    pub fn len(&self) -> (r: usize)
        ensures
            r == self@.entries.len(),
    {
        self.entries.len()
    }

    pub fn is_empty(&self) -> (r: bool)
        ensures
            r == (self@.entries.len() == 0),
    {
        self.entries.len() == 0
    }

    pub fn get(&self, idx: usize) -> (r: Option<&Fav>)
        ensures
            match r {
                Some(f) => idx < self@.entries.len() && f@ == self@.entries[idx as int],
                None => idx >= self@.entries.len(),
            },
    {
        if idx < self.entries.len() {
            Some(&self.entries[idx])
        } else {
            None
        }
    }

    /// Where this pair sits in the playlist, if it is starred.
    pub fn position_of(&self, midi: &Location, soundfont: &Location) -> (r: Option<usize>)
        ensures
            match r {
                Some(i) => i == find_fav(self@.entries, (midi@.key(), soundfont@.key())) && i
                    < self@.entries.len(),
                None => !has_pair(self@.entries, midi@, soundfont@),
            },
    {
        let ghost k = (midi@.key(), soundfont@.key());
        let ghost s = self@.entries;
        let mut i: usize = 0;
        while i < self.entries.len()
            invariant
                i <= self.entries@.len(),
                s == fav_views(self.entries@),
                k == (midi@.key(), soundfont@.key()),
                forall|j: int| 0 <= j < i ==> (#[trigger] s[j]).key() != k,
            decreases self.entries.len() - i,
        {
            let f = &self.entries[i];
            assert(s[i as int] == f@);
            if f.midi == *midi && f.soundfont == *soundfont {
                proof {
                    lemma_find_fav_is(s, k, i as int);
                }
                return Some(i);
            }
            i = i + 1;
        }
        proof {
            lemma_find_fav_is(s, k, i as int);
        }
        None
    }

    /// Build the displayed rows, keeping only those matching the
    /// case-insensitive `filter`. There is one row per favourite in list order:
    /// no grouped views, because collapsing pairs would hide exactly what the
    /// list is for and would leave reordering with no well-defined meaning.
    ///
    /// `history` supplies the play counts; a pair never played shows none.
    pub fn rows(&self, filter: &str, history: &History, disk: &Disk) -> (r: Vec<Row>)
        ensures
            history::row_views(r@) == history::filtered(
                fav_rows(self@.entries, history@.entries, disk@),
                filter@,
            ),
    {
        let mut out: Vec<Row> = Vec::new();
        let mut i: usize = 0;
        let ghost s = self@.entries;
        while i < self.entries.len()
            invariant
                i <= self.entries@.len(),
                s == fav_views(self.entries@),
                out@.len() == i,
                forall|k: int|
                    0 <= k < i ==> (#[trigger] out@[k])@ == fav_row(
                        s[k],
                        k,
                        history@.entries,
                        disk@,
                    ),
            decreases self.entries.len() - i,
        {
            let f = &self.entries[i];
            assert(s[i as int] == f@);
            let midi = Some(f.midi.clone());
            let soundfont = Some(f.soundfont.clone());
            let mut idxs: Vec<usize> = Vec::new();
            idxs.push(i);
            let row = Row {
                when: f.added,
                plays: history.plays_of(&f.midi, &f.soundfont),
                idxs,
                gone: is_gone(&midi, &soundfont, disk),
                midi,
                soundfont,
            };
            assert(row@.idxs =~= seq![i]);
            out.push(row);
            i = i + 1;
        }
        assert(history::row_views(out@) =~= fav_rows(s, history@.entries, disk@));
        filter_rows(out, filter)
    }
}

/// A record as far as it was read, with its locations.
struct Part {
    midi: Option<Location>,
    soundfont: Option<Location>,
    added: u64,
}

impl Part {
    spec fn part(self) -> PartView {
        PartView {
            midi: vfs::opt_view(self.midi),
            soundfont: vfs::opt_view(self.soundfont),
            added: self.added,
        }
    }
}

spec fn opt_part(p: Option<Part>) -> Option<PartView> {
    match p {
        Some(x) => Some(x.part()),
        None => None,
    }
}

/// Parse the stanza file body. A record missing either side is not a pair, so
/// it is skipped rather than half-restored; unknown keys are ignored.
pub fn parse(body: &str) -> (r: Vec<Fav>)
    ensures
        fav_views(r@) == parsed(body@),
{
    let lines = split_lines(body);
    let ghost t = text::texts(lines@);
    let mut out: Vec<Fav> = Vec::new();
    let mut cur: Option<Part> = None;
    let mut i: usize = 0;
    assert(t.take(0) =~= seq![]);
    assert(fav_views(out@) =~= seq![]);
    while i < lines.len()
        invariant
            i <= lines@.len(),
            t == text::texts(lines@),
            reading(t.take(i as int)) == (Reading { done: fav_views(out@), cur: opt_part(cur) }),
        decreases lines.len() - i,
    {
        proof {
            assert(t.take(i + 1).drop_last() =~= t.take(i as int));
            assert(t.take(i + 1).last() == lines@[i as int]@);
            reveal_strlit("[fav]");
            assert("[fav]"@ =~= fav_mark());
        }
        match read_line(lines[i].as_str(), "[fav]") {
            ConfLine::Skip => {},
            ConfLine::Mark => {
                finish(cur, &mut out);
                cur = Some(Part { midi: None, soundfont: None, added: 0 });
            },
            ConfLine::Pair { key, val } => {
                cur = match cur {
                    Some(e) => Some(set_field(e, key.as_str(), val.as_str())),
                    None => None,
                };
            },
        }
        i = i + 1;
    }
    assert(t.take(t.len() as int) =~= t);
    finish(cur, &mut out);
    out
}

/// Keep the record that was being read, if it is a pair.
fn finish(cur: Option<Part>, out: &mut Vec<Fav>)
    ensures
        fav_views(final(out)@) == (Reading { done: fav_views(old(out)@), cur: opt_part(cur) }).finish(),
{
    let ghost before = fav_views(out@);
    match cur {
        Some(Part { midi: Some(midi), soundfont: Some(soundfont), added }) => {
            let f = Fav { midi, soundfont, added };
            out.push(f);
            assert(fav_views(out@) =~= before.push(f@));
        },
        _ => {},
    }
}

fn set_field(e: Part, key: &str, val: &str) -> (r: Part)
    ensures
        r.part() == with_field(e.part(), key@, val@),
{
    let mut e = e;
    proof {
        lemma_keys_differ();
    }
    if same_text(key, "added") {
        e.added = match parse_number(val, u64::MAX) {
            Some(n) => n,
            None => 0,
        };
    } else if same_text(key, "midi") {
        e.midi = Some(Location::decode(val));
    } else if same_text(key, "sf") {
        e.soundfont = Some(Location::decode(val));
    }
    e
}

pub proof fn lemma_keys_differ()
    ensures
        "added"@ != "midi"@,
        "added"@ != "sf"@,
        "midi"@ != "sf"@,
        conf::is_key("added"@),
{
    reveal_strlit("added");
    reveal_strlit("midi");
    reveal_strlit("sf");
    assert("added"@ =~= seq!['a', 'd', 'd', 'e', 'd']);
    assert("midi"@ =~= seq!['m', 'i', 'd', 'i']);
    assert("sf"@ =~= seq!['s', 'f']);
}

/// Render the list in playlist order, each timestamp also spelled out as a
/// comment so the file is readable as it stands.
pub fn serialize(entries: &Vec<Fav>, offsets: &Vec<i64>) -> (r: String)
    ensures
        r@ == conf::unlines(file_lines(fav_views(entries@), offsets@)),
{
    let ghost s = fav_views(entries@);
    let ghost head = seq![
        "# voxfont favourites v1"@,
        "# Track + SoundFont pairs, in the order they play. Times below are local."@,
    ];
    let mut out = String::new();
    push_line(&mut out, "# voxfont favourites v1");
    push_line(
        &mut out,
        "# Track + SoundFont pairs, in the order they play. Times below are local.",
    );
    proof {
        reveal_with_fuel(conf::unlines, 3);
        assert(head.drop_last() =~= seq!["# voxfont favourites v1"@]);
        assert(head.drop_last().drop_last() =~= seq![]);
        assert(out@ =~= conf::unlines(head));
        assert(favs_lines(s, 0, offsets@) =~= seq![]);
        assert(head + favs_lines(s, 0, offsets@) =~= head);
    }
    let mut i: usize = 0;
    while i < entries.len()
        invariant
            i <= entries@.len(),
            s == fav_views(entries@),
            out@ == conf::unlines(head + favs_lines(s, i as int, offsets@)),
        decreases entries.len() - i,
    {
        let f = &entries[i];
        let offset: i64 = if i < offsets.len() { offsets[i] } else { 0 };
        let ghost before = head + favs_lines(s, i as int, offsets@);
        let ghost o = history::offset_at(offsets@, i as int);
        assert(s[i as int] == f@);
        write_fav(&mut out, f, offset);
        proof {
            conf::lemma_unlines_append(before, fav_lines(f@, o));
            assert(before + fav_lines(f@, o) =~= head + favs_lines(s, i + 1, offsets@));
        }
        i = i + 1;
    }
    out
}

/// Put the lines of a pair at the end of a text.
fn write_fav(out: &mut String, f: &Fav, offset: i64)
    ensures
        final(out)@ == old(out)@ + conf::unlines(fav_lines(f@, offset as int)),
{
    let ghost start = out@;
    let mut stamp = "# ".to_owned();
    let t = fmt_stamp_at(f.added, offset, true);
    stamp.append(t.as_str());
    let added = dec_text(f.added);
    let l1 = pair_text("added", added.as_str());
    let midi = f.midi.encode();
    let l2 = pair_text("midi", midi.as_str());
    let sf = f.soundfont.encode();
    let l3 = pair_text("sf", sf.as_str());
    let empty = String::new();
    push_line(out, empty.as_str());
    push_line(out, stamp.as_str());
    push_line(out, "[fav]");
    push_line(out, l1.as_str());
    push_line(out, l2.as_str());
    push_line(out, l3.as_str());
    proof {
        reveal_strlit("[fav]");
        assert("[fav]"@ =~= fav_mark());
        assert(empty@ =~= seq![]);
        let v = seq![empty@, stamp@, fav_mark(), l1@, l2@];
        history::lemma_unlines_five(v);
        let w = fav_lines(f@, offset as int);
        assert(w.drop_last() =~= v);
        assert(w.last() == l3@);
        assert(out@ =~= start + conf::unlines(w));
    }
}

} // verus!
