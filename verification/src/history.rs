//! Playing history: which MIDI file was heard through which SoundFont, when,
//! and how often.
//!
//! One chronological log is kept, most recent first. Each record is a
//! *combination* — the same track played through two SoundFonts is two records.
//! The per-track and per-SoundFont views are grouped projections of this one
//! log, so they can never drift apart.
//!
//! The log is kept as a text of stanzas in `key = value` style: giving every
//! value its own line means nothing has to be escaped, and unknown keys are
//! ignored so the format can gain fields.

use crate::ascii;
use crate::ascii::{dec_text, parse_number};
use crate::calendar;
use crate::calendar::fmt_stamp_at;
use crate::conf;
use crate::conf::{pair_text, push_line, read_line, ConfLine};
use crate::sorting;
use crate::sorting::{sort_positions, ByNumber};
use crate::text;
use crate::text::{contains, same_text, split_lines, to_lower, trimmed};
use crate::vfs;
use crate::vfs::{clone_loc, same_opt, Disk, FileKind, LocKey, LocView, Location};
use vstd::prelude::*;
use vstd::string::*;
use vstd::view::View as _;

verus! {

// --- records ----------------------------------------------------------------

/// One remembered (track, SoundFont) combination.
#[derive(Debug)]
pub struct Entry {
    /// The MIDI file. `None` for a SoundFont loaded while nothing was playing.
    pub midi: Option<Location>,
    /// The SoundFont it was heard through. Always set in practice, since
    /// playback requires one.
    pub soundfont: Option<Location>,
    /// Unix seconds of the most recent play of this combination.
    pub when: u64,
    /// How many times this combination has been played.
    pub plays: u32,
}

/// A record, with its locations as texts.
#[verifier::ext_equal]
pub struct EntryView {
    pub midi: Option<LocView>,
    pub soundfont: Option<LocView>,
    pub when: u64,
    pub plays: u32,
}

impl vstd::view::View for Entry {
    type V = EntryView;

    open spec fn view(&self) -> EntryView {
        EntryView {
            midi: vfs::opt_view(self.midi),
            soundfont: vfs::opt_view(self.soundfont),
            when: self.when,
            plays: self.plays,
        }
    }
}

/// The records in a list.
pub open spec fn entry_views(v: Seq<Entry>) -> Seq<EntryView> {
    v.map_values(|e: Entry| e@)
}

impl EntryView {
    /// What combination this is.
    pub open spec fn key(self) -> (Option<LocKey>, Option<LocKey>) {
        (vfs::opt_key(self.midi), vfs::opt_key(self.soundfont))
    }
}

impl Clone for Entry {
    fn clone(&self) -> (r: Self)
        ensures
            r == *self,
    {
        Entry {
            midi: clone_loc(&self.midi),
            soundfont: clone_loc(&self.soundfont),
            when: self.when,
            plays: self.plays,
        }
    }
}

/// Which projection of the log the history overlay shows.
#[derive(Clone, Copy, PartialEq, Eq, Structural, Debug)]
pub enum View {
    /// Every remembered combination, newest first.
    Pairs,
    /// One row per MIDI file, newest first.
    Tracks,
    /// One row per SoundFont, newest first.
    Fonts,
}

impl View {
    /// The view after this one.
    pub open spec fn following(self) -> View {
        match self {
            View::Pairs => View::Tracks,
            View::Tracks => View::Fonts,
            View::Fonts => View::Pairs,
        }
    }

    pub fn next(self) -> (r: View)
        ensures
            r == self.following(),
    {
        match self {
            View::Pairs => View::Tracks,
            View::Tracks => View::Fonts,
            View::Fonts => View::Pairs,
        }
    }

    pub fn title(self) -> (r: &'static str)
        ensures
            r@ == (match self {
                View::Pairs => "recent"@,
                View::Tracks => "tracks"@,
                View::Fonts => "soundfonts"@,
            }),
    {
        match self {
            View::Pairs => "recent",
            View::Tracks => "tracks",
            View::Fonts => "soundfonts",
        }
    }
}

/// Three steps through the views lead back to the first.
pub proof fn lemma_views_cycle(v: View)
    ensures
        v.following().following().following() == v,
        v.following() != v,
{
}

/// One rendered row of a view. `idxs` are the log entries it stands for: a
/// single entry in [`View::Pairs`], the whole group in the grouped views, so
/// "forget this row" removes exactly what the row displays.
#[derive(Debug)]
pub struct Row {
    pub midi: Option<Location>,
    pub soundfont: Option<Location>,
    pub when: u64,
    pub plays: u32,
    pub idxs: Vec<usize>,
    /// True when a side of the row can no longer be played, so the UI can flag
    /// it.
    pub gone: bool,
}

/// A row, with its locations as texts.
#[verifier::ext_equal]
pub struct RowView {
    pub midi: Option<LocView>,
    pub soundfont: Option<LocView>,
    pub when: u64,
    pub plays: u32,
    pub idxs: Seq<usize>,
    pub gone: bool,
}

impl vstd::view::View for Row {
    type V = RowView;

    open spec fn view(&self) -> RowView {
        RowView {
            midi: vfs::opt_view(self.midi),
            soundfont: vfs::opt_view(self.soundfont),
            when: self.when,
            plays: self.plays,
            idxs: self.idxs@,
            gone: self.gone,
        }
    }
}

/// The rows in a list.
pub open spec fn row_views(v: Seq<Row>) -> Seq<RowView> {
    v.map_values(|r: Row| r@)
}

/// A copy of a list of positions.
pub fn clone_idxs(v: &Vec<usize>) -> (r: Vec<usize>)
    ensures
        r@ == v@,
{
    let mut r: Vec<usize> = Vec::new();
    let mut i: usize = 0;
    while i < v.len()
        invariant
            i <= v@.len(),
            r@ == v@.take(i as int),
        decreases v.len() - i,
    {
        r.push(v[i]);
        assert(v@.take(i + 1) =~= v@.take(i as int).push(v@[i as int]));
        i = i + 1;
    }
    assert(v@.take(v@.len() as int) =~= v@);
    r
}

impl Clone for Row {
    fn clone(&self) -> (r: Self)
        ensures
            r@ == self@,
    {
        Row {
            midi: clone_loc(&self.midi),
            soundfont: clone_loc(&self.soundfont),
            when: self.when,
            plays: self.plays,
            idxs: clone_idxs(&self.idxs),
            gone: self.gone,
        }
    }
}

/// A copy of a list of rows.
pub fn clone_rows(v: &Vec<Row>) -> (r: Vec<Row>)
    ensures
        row_views(r@) == row_views(v@),
{
    let mut r: Vec<Row> = Vec::new();
    let mut i: usize = 0;
    while i < v.len()
        invariant
            i <= v@.len(),
            r@.len() == i,
            forall|k: int| 0 <= k < i ==> (#[trigger] r@[k])@ == v@[k]@,
        decreases v.len() - i,
    {
        r.push(v[i].clone());
        i = i + 1;
    }
    assert(row_views(r@) =~= row_views(v@));
    r
}

// --- the log ----------------------------------------------------------------

/// The log plus where it is persisted. A history with no `path` (the default,
/// and what `--no-history` leaves in place) keeps entries for the session only
/// and is never written.
pub struct History {
    entries: Vec<Entry>,
    path: Option<String>,
    dirty: bool,
}

/// The log, its path and whether it was changed since it was last written.
#[verifier::ext_equal]
pub struct HistoryView {
    pub entries: Seq<EntryView>,
    pub path: Option<Seq<char>>,
    pub dirty: bool,
}

/// The text in an optional string.
pub open spec fn opt_text(s: Option<String>) -> Option<Seq<char>> {
    match s {
        Some(x) => Some(x@),
        None => None,
    }
}

impl vstd::view::View for History {
    type V = HistoryView;

    closed spec fn view(&self) -> HistoryView {
        HistoryView {
            entries: entry_views(self.entries@),
            path: opt_text(self.path),
            dirty: self.dirty,
        }
    }
}

/// A text to be written to a file, in place of what the file holds.
#[derive(Debug)]
pub struct Writing {
    pub path: String,
    pub body: String,
}

/// The records by time, the newest first; those of one time in their order.
pub open spec fn newest_first(s: Seq<EntryView>) -> Seq<EntryView> {
    sorting::reorder(s, sorting::order(when_keys(s)))
}

/// The keys by which records are sorted.
pub open spec fn when_keys(s: Seq<EntryView>) -> Seq<Seq<int>> {
    sorting::number_keys(s.map_values(|e: EntryView| -(e.when as int)))
}

/// No record is older than one that follows it.
pub open spec fn is_newest_first(s: Seq<EntryView>) -> bool {
    forall|i: int, j: int| 0 <= i < j < s.len() ==> (#[trigger] s[i]).when >= (#[trigger] s[j]).when
}

/// No combination has two records.
pub open spec fn distinct_pairs(s: Seq<EntryView>) -> bool {
    forall|i: int, j: int| 0 <= i < j < s.len() ==> (#[trigger] s[i]).key() != (#[trigger] s[j]).key()
}

/// Where the first record of the combination `k` is, or the length of `s`.
pub open spec fn find_pair(s: Seq<EntryView>, k: (Option<LocKey>, Option<LocKey>)) -> int
    decreases s.len(),
{
    if s.len() == 0 {
        0
    } else if s[0].key() == k {
        0
    } else {
        1 + find_pair(s.drop_first(), k)
    }
}

/// One more, as far as the count goes.
pub open spec fn add_plays(a: u32, b: u32) -> u32 {
    if a + b <= u32::MAX {
        (a + b) as u32
    } else {
        u32::MAX
    }
}

/// The log once the combination was played: its record, with the new time and
/// (when it counts) one play more, or a new one, on top of those no newer.
pub open spec fn recorded(
    s: Seq<EntryView>,
    midi: Option<LocView>,
    soundfont: Option<LocView>,
    now: u64,
    count: bool,
) -> Seq<EntryView> {
    let i = find_pair(s, (vfs::opt_key(midi), vfs::opt_key(soundfont)));
    if i < s.len() {
        let plays = if count { add_plays(s[i].plays, 1) } else { s[i].plays };
        newest_first(seq![EntryView { when: now, plays, ..s[i] }] + s.remove(i))
    } else {
        newest_first(seq![EntryView { midi, soundfont, when: now, plays: 1 }] + s)
    }
}

/// The log without the records at the positions `idxs`, in whatever order and
/// however often a position is given; one past the end says nothing.
pub open spec fn without(s: Seq<EntryView>, idxs: Seq<usize>) -> Seq<EntryView>
    decreases s.len(),
{
    if s.len() == 0 {
        seq![]
    } else if idxs.contains((s.len() - 1) as usize) {
        without(s.drop_last(), idxs)
    } else {
        without(s.drop_last(), idxs).push(s.last())
    }
}

// --- rows -------------------------------------------------------------------

/// True when the location is given and not there.
pub open spec fn missing(l: Option<LocView>, disk: Map<Seq<char>, FileKind>) -> bool {
    l matches Some(x) && !x.is_present(disk)
}

/// True when either side of a row has disappeared from disk, and playing it
/// again would fail.
pub open spec fn gone(
    midi: Option<LocView>,
    soundfont: Option<LocView>,
    disk: Map<Seq<char>, FileKind>,
) -> bool {
    missing(midi, disk) || missing(soundfont, disk)
}

/// The name of an optional location; empty for none.
pub open spec fn opt_name(l: Option<LocView>) -> Seq<char> {
    match l {
        Some(x) => x.file_name(),
        None => seq![],
    }
}

/// The text a filter is matched against: the two names the row displays.
pub open spec fn haystack(midi: Option<LocView>, soundfont: Option<LocView>) -> Seq<char> {
    text::lower(opt_name(midi) + seq![' '] + opt_name(soundfont))
}

/// What a filter looks for.
pub open spec fn needle(filter: Seq<char>) -> Seq<char> {
    text::lower(text::trim(filter))
}

/// True when the row passes the filter; an empty one lets all pass.
pub open spec fn passes(r: RowView, filter: Seq<char>) -> bool {
    needle(filter).len() == 0 || text::has(haystack(r.midi, r.soundfont), needle(filter))
}

/// The rows that pass the filter.
pub open spec fn filtered(rows: Seq<RowView>, filter: Seq<char>) -> Seq<RowView> {
    rows.filter(|r: RowView| passes(r, filter))
}

/// The row of the record at position `i`.
pub open spec fn pair_row(e: EntryView, i: int, disk: Map<Seq<char>, FileKind>) -> RowView {
    RowView {
        midi: e.midi,
        soundfont: e.soundfont,
        when: e.when,
        plays: e.plays,
        idxs: seq![i as usize],
        gone: gone(e.midi, e.soundfont, disk),
    }
}

/// The side of a combination that a grouped view goes by.
pub open spec fn group_key(
    view: View,
    midi: Option<LocView>,
    soundfont: Option<LocView>,
) -> Option<LocKey> {
    match view {
        View::Fonts => vfs::opt_key(soundfont),
        _ => vfs::opt_key(midi),
    }
}

/// Where the row of the group `k` is, or the length of `rows`.
pub open spec fn find_group(rows: Seq<RowView>, view: View, k: Option<LocKey>) -> int
    decreases rows.len(),
{
    if rows.len() == 0 {
        0
    } else if group_key(view, rows[0].midi, rows[0].soundfont) == k {
        0
    } else {
        1 + find_group(rows.drop_first(), view, k)
    }
}

/// The rows of the first `n` records grouped by one side: a group shows its
/// newest record's counterpart and the summed play count. Records without that
/// side are skipped.
pub open spec fn grouped(
    s: Seq<EntryView>,
    n: int,
    view: View,
    disk: Map<Seq<char>, FileKind>,
) -> Seq<RowView>
    decreases n,
{
    if n <= 0 {
        seq![]
    } else {
        let rows = grouped(s, n - 1, view, disk);
        let e = s[n - 1];
        let k = group_key(view, e.midi, e.soundfont);
        if k is None {
            rows
        } else {
            let r = find_group(rows, view, k);
            if r < rows.len() {
                rows.update(
                    r,
                    RowView {
                        plays: add_plays(rows[r].plays, e.plays),
                        idxs: rows[r].idxs.push((n - 1) as usize),
                        ..rows[r]
                    },
                )
            } else {
                rows.push(pair_row(e, n - 1, disk))
            }
        }
    }
}

/// The rows of a view, before filtering.
pub open spec fn all_rows(
    s: Seq<EntryView>,
    view: View,
    disk: Map<Seq<char>, FileKind>,
) -> Seq<RowView> {
    match view {
        View::Pairs => s.map(|i: int, e: EntryView| pair_row(e, i, disk)),
        _ => grouped(s, s.len() as int, view, disk),
    }
}

/// How often the pair was played, by its first record.
pub open spec fn pair_plays(s: Seq<EntryView>, midi: LocView, soundfont: LocView) -> u32 {
    let i = find_pair(s, (Some(midi.key()), Some(soundfont.key())));
    if i < s.len() {
        s[i].plays
    } else {
        0
    }
}

// --- the file ---------------------------------------------------------------

/// What starts a record in the file.
pub open spec fn play_mark() -> Seq<char> {
    seq!['[', 'p', 'l', 'a', 'y', ']']
}

/// What was read of a file so far: the whole records, and the one that the
/// next lines belong to.
#[verifier::ext_equal]
pub struct Reading {
    pub done: Seq<EntryView>,
    pub cur: Option<EntryView>,
}

impl Reading {
    /// A record counts once it has a time and a side.
    pub open spec fn finish(self) -> Seq<EntryView> {
        match self.cur {
            Some(e) => if e.when > 0 && (e.midi is Some || e.soundfont is Some) {
                self.done.push(e)
            } else {
                self.done
            },
            None => self.done,
        }
    }

    pub open spec fn step(self, line: conf::LineView) -> Reading {
        match line {
            conf::LineView::Skip => self,
            conf::LineView::Mark => Reading {
                done: self.finish(),
                cur: Some(EntryView { midi: None, soundfont: None, when: 0, plays: 1 }),
            },
            conf::LineView::Pair { key, val } => match self.cur {
                Some(e) => Reading { done: self.done, cur: Some(with_field(e, key, val)) },
                None => self,
            },
        }
    }
}

/// A record with one of its fields as read; an unknown key says nothing.
pub open spec fn with_field(e: EntryView, key: Seq<char>, val: Seq<char>) -> EntryView {
    if key == "when"@ {
        EntryView {
            when: match ascii::parse_dec(val, u64::MAX as nat) {
                Some(n) => n as u64,
                None => 0,
            },
            ..e
        }
    } else if key == "plays"@ {
        EntryView {
            plays: match ascii::parse_dec(val, u32::MAX as nat) {
                Some(n) => if n == 0 {
                    1
                } else {
                    n as u32
                },
                None => 1,
            },
            ..e
        }
    } else if key == "midi"@ {
        EntryView { midi: Some(LocView::decode(val)), ..e }
    } else if key == "sf"@ {
        EntryView { soundfont: Some(LocView::decode(val)), ..e }
    } else {
        e
    }
}

pub open spec fn reading(lines: Seq<Seq<char>>) -> Reading
    decreases lines.len(),
{
    if lines.len() == 0 {
        Reading { done: seq![], cur: None }
    } else {
        reading(lines.drop_last()).step(conf::line_view(lines.last(), play_mark()))
    }
}

/// The records that a file's text holds, in its order.
pub open spec fn parsed(s: Seq<char>) -> Seq<EntryView> {
    reading(text::lines(s)).finish()
}

/// The offset from UTC at a position; 0 where none is given.
pub open spec fn offset_at(offsets: Seq<i64>, i: int) -> int {
    if 0 <= i < offsets.len() {
        offsets[i] as int
    } else {
        0
    }
}

/// The lines of a record.
pub open spec fn entry_lines(e: EntryView, offset: int) -> Seq<Seq<char>> {
    seq![
        seq![],
        "# "@ + calendar::stamp_at(e.when, offset, true),
        play_mark(),
        conf::pair_line("when"@, ascii::dec(e.when as nat)),
        conf::pair_line("plays"@, ascii::dec(e.plays as nat)),
    ] + loc_line("midi"@, e.midi) + loc_line("sf"@, e.soundfont)
}

/// The line of an optional location, if it is given.
pub open spec fn loc_line(key: Seq<char>, l: Option<LocView>) -> Seq<Seq<char>> {
    match l {
        Some(x) => seq![conf::pair_line(key, x.encode())],
        None => seq![],
    }
}

/// The lines of the first `n` records.
pub open spec fn entries_lines(s: Seq<EntryView>, n: int, offsets: Seq<i64>) -> Seq<Seq<char>>
    decreases n,
{
    if n <= 0 {
        seq![]
    } else {
        entries_lines(s, n - 1, offsets) + entry_lines(s[n - 1], offset_at(offsets, n - 1))
    }
}

/// The lines of the file: the log, newest first, with each time also spelled
/// out in local time as a comment.
pub open spec fn file_lines(s: Seq<EntryView>, offsets: Seq<i64>) -> Seq<Seq<char>> {
    seq!["# voxfont playing history v1"@, "# Newest first. Times below are local."@]
        + entries_lines(s, s.len() as int, offsets)
}

// --- working on the log -----------------------------------------------------

pub proof fn lemma_find_pair(s: Seq<EntryView>, k: (Option<LocKey>, Option<LocKey>))
    ensures
        0 <= find_pair(s, k) <= s.len(),
        find_pair(s, k) < s.len() ==> s[find_pair(s, k)].key() == k,
        forall|i: int| 0 <= i < find_pair(s, k) ==> (#[trigger] s[i]).key() != k,
    decreases s.len(),
{
    if s.len() > 0 && s[0].key() != k {
        let t = s.drop_first();
        lemma_find_pair(t, k);
        assert forall|i: int| 0 <= i < find_pair(s, k) implies (#[trigger] s[i]).key() != k by {
            if i > 0 {
                assert(s[i] == t[i - 1]);
            }
        }
    }
}

pub proof fn lemma_find_pair_is(s: Seq<EntryView>, k: (Option<LocKey>, Option<LocKey>), n: int)
    requires
        0 <= n <= s.len(),
        n < s.len() ==> s[n].key() == k,
        forall|i: int| 0 <= i < n ==> (#[trigger] s[i]).key() != k,
    ensures
        find_pair(s, k) == n,
{
    lemma_find_pair(s, k);
    let f = find_pair(s, k);
    if f < n {
        assert(s[f].key() == k);
    }
    if n < f {
        assert(s[n].key() != k);
    }
}

pub proof fn lemma_find_group(rows: Seq<RowView>, view: View, k: Option<LocKey>)
    ensures
        0 <= find_group(rows, view, k) <= rows.len(),
        find_group(rows, view, k) < rows.len() ==> group_key(
            view,
            rows[find_group(rows, view, k)].midi,
            rows[find_group(rows, view, k)].soundfont,
        ) == k,
        forall|i: int|
            0 <= i < find_group(rows, view, k) ==> group_key(
                view,
                (#[trigger] rows[i]).midi,
                rows[i].soundfont,
            ) != k,
    decreases rows.len(),
{
    if rows.len() > 0 && group_key(view, rows[0].midi, rows[0].soundfont) != k {
        let t = rows.drop_first();
        lemma_find_group(t, view, k);
        assert forall|i: int| 0 <= i < find_group(rows, view, k) implies group_key(
            view,
            (#[trigger] rows[i]).midi,
            rows[i].soundfont,
        ) != k by {
            if i > 0 {
                assert(rows[i] == t[i - 1]);
            }
        }
    }
}

pub proof fn lemma_find_group_is(rows: Seq<RowView>, view: View, k: Option<LocKey>, n: int)
    requires
        0 <= n <= rows.len(),
        n < rows.len() ==> group_key(view, rows[n].midi, rows[n].soundfont) == k,
        forall|i: int|
            0 <= i < n ==> group_key(view, (#[trigger] rows[i]).midi, rows[i].soundfont) != k,
    ensures
        find_group(rows, view, k) == n,
{
    lemma_find_group(rows, view, k);
    let f = find_group(rows, view, k);
    if f < n {
        assert(group_key(view, rows[f].midi, rows[f].soundfont) == k);
    }
    if n < f {
        assert(group_key(view, rows[n].midi, rows[n].soundfont) != k);
    }
}

/// Sorting leaves the newest first, and keeps each record.
pub proof fn lemma_newest_first(s: Seq<EntryView>)
    ensures
        is_newest_first(newest_first(s)),
        newest_first(s).len() == s.len(),
{
    let keys = when_keys(s);
    let p = sorting::order(keys);
    let t = newest_first(s);
    sorting::lemma_order_exists(keys);
    assert forall|i: int, j: int| 0 <= i < j < t.len() implies (#[trigger] t[i]).when >= (
    #[trigger] t[j]).when by {
        assert(sorting::before(keys, p[i], p[j]));
        reveal_with_fuel(sorting::key_less, 2);
        assert(keys[p[i]] == seq![-(s[p[i]].when as int)]);
        assert(keys[p[j]] == seq![-(s[p[j]].when as int)]);
        assert(keys[p[i]][0] <= keys[p[j]][0]);
    }
}

fn sort_newest(v: Vec<Entry>) -> (r: Vec<Entry>)
    ensures
        entry_views(r@) == newest_first(entry_views(v@)),
        is_newest_first(entry_views(r@)),
{
    let mut rows: Vec<u128> = Vec::new();
    let mut i: usize = 0;
    while i < v.len()
        invariant
            i <= v@.len(),
            rows@.len() == i,
            forall|k: int| 0 <= k < i ==> rows@[k] == (#[trigger] v@[k]).when,
        decreases v.len() - i,
    {
        rows.push(v[i].when as u128);
        i = i + 1;
    }
    let by = ByNumber { rows, greatest_first: true };
    let at = sort_positions(&by);
    let ghost s = entry_views(v@);
    let ghost keys = when_keys(s);
    assert(by.numbers() =~= s.map_values(|e: EntryView| -(e.when as int)));
    let mut out: Vec<Entry> = Vec::new();
    let mut k: usize = 0;
    while k < at.len()
        invariant
            k <= at@.len(),
            at@.len() == v@.len(),
            forall|j: int| 0 <= j < at@.len() ==> #[trigger] at@[j] < v@.len(),
            out@.len() == k,
            forall|j: int| 0 <= j < k ==> (#[trigger] out@[j]) == v@[at@[j] as int],
        decreases at.len() - k,
    {
        out.push(v[at[k]].clone());
        k = k + 1;
    }
    proof {
        let p = sorting::order(keys);
        assert(p == sorting::ints(at@));
        assert forall|j: int| 0 <= j < out@.len() implies entry_views(out@)[j] == newest_first(
            s,
        )[j] by {
            assert(p[j] == at@[j] as int);
            assert(out@[j] == v@[at@[j] as int]);
        }
        assert(entry_views(out@) =~= newest_first(s));
        lemma_newest_first(s);
    }
    out
}

/// True when either side of a row has disappeared from disk.
pub fn is_gone(midi: &Option<Location>, soundfont: &Option<Location>, disk: &Disk) -> (r: bool)
    ensures
        r == gone(vfs::opt_view(*midi), vfs::opt_view(*soundfont), disk@),
{
    let a = match midi {
        Some(l) => !l.is_present(disk),
        None => false,
    };
    let b = match soundfont {
        Some(l) => !l.is_present(disk),
        None => false,
    };
    a || b
}

/// The text a filter is matched against.
pub fn row_haystack(r: &Row) -> (s: String)
    ensures
        s@ == haystack(r@.midi, r@.soundfont),
{
    let mut s = match &r.midi {
        Some(l) => l.file_name(),
        None => String::new(),
    };
    s.push(' ');
    let t = match &r.soundfont {
        Some(l) => l.file_name(),
        None => String::new(),
    };
    s.append(t.as_str());
    proof {
        assert(s@ =~= opt_name(r@.midi) + seq![' '] + opt_name(r@.soundfont));
    }
    to_lower(s.as_str())
}

pub proof fn lemma_filter_push<T>(s: Seq<T>, x: T, f: spec_fn(T) -> bool)
    ensures
        s.push(x).filter(f) == if f(x) {
            s.filter(f).push(x)
        } else {
            s.filter(f)
        },
{
    assert(s.push(x).drop_last() =~= s);
    reveal(Seq::filter);
}

/// The rows that pass the filter.
pub fn filter_rows(rows: Vec<Row>, filter: &str) -> (r: Vec<Row>)
    ensures
        row_views(r@) == filtered(row_views(rows@), filter@),
{
    let t = trimmed(filter);
    let f = to_lower(t.as_str());
    let ghost s = row_views(rows@);
    let ghost pred = |r: RowView| passes(r, filter@);
    let all = f.as_str().is_empty();
    let mut out: Vec<Row> = Vec::new();
    let mut i: usize = 0;
    proof {
        reveal(Seq::filter);
        assert(s.take(0) =~= seq![]);
        assert(row_views(out@) =~= s.take(0).filter(pred));
    }
    while i < rows.len()
        invariant
            i <= rows@.len(),
            s == row_views(rows@),
            pred == (|r: RowView| passes(r, filter@)),
            f@ == needle(filter@),
            all == (f@.len() == 0),
            row_views(out@) == s.take(i as int).filter(pred),
        decreases rows.len() - i,
    {
        let ghost prev = row_views(out@);
        let keep = if all {
            true
        } else {
            let h = row_haystack(&rows[i]);
            contains(h.as_str(), f.as_str())
        };
        proof {
            assert(s.take(i + 1) =~= s.take(i as int).push(s[i as int]));
            lemma_filter_push(s.take(i as int), s[i as int], pred);
            assert(keep == pred(s[i as int]));
        }
        if keep {
            out.push(rows[i].clone());
            assert(row_views(out@) =~= prev.push(s[i as int]));
        }
        i = i + 1;
    }
    assert(s.take(s.len() as int) =~= s);
    out
}

impl Default for History {
    /// An empty log that is never written.
    fn default() -> (r: History)
        ensures
            r@ == (HistoryView { entries: seq![], path: None, dirty: false }),
            r.wf(),
    {
        let r = History { entries: Vec::new(), path: None, dirty: false };
        assert(r@.entries =~= seq![]);
        r
    }
}

impl History {
    /// The log is kept newest first.
    pub open spec fn wf(&self) -> bool {
        is_newest_first(self@.entries)
    }

    /// The history kept in the configuration directory: the file's path and
    /// what it holds, when there is such a directory.
    pub fn load(file: Option<(String, Option<String>)>) -> (r: History)
        ensures
            r.wf(),
            r@ == (match file {
                Some((path, body)) => loaded(path@, opt_text(body)),
                None => HistoryView { entries: seq![], path: None, dirty: false },
            }),
    {
        match file {
            Some((path, body)) => History::load_at(path, body),
            None => History::default(),
        }
    }

    /// A history stored at `path`, whose file holds `body`; `None` when it
    /// could not be read.
    pub fn load_at(path: String, body: Option<String>) -> (r: History)
        ensures
            r.wf(),
            r@ == loaded(path@, opt_text(body)),
    {
        let raw = match body {
            Some(b) => parse(b.as_str()),
            None => Vec::new(),
        };
        proof {
            if body is None {
                assert(entry_views(raw@) =~= seq![]);
            }
        }
        // Newest first, whatever order the file happened to be in.
        let entries = sort_newest(raw);
        History { entries, path: Some(path), dirty: false }
    }

    /// What is to be written, if the log changed and a path is set. `offsets`
    /// gives the local offset from UTC at the time of each record.
    pub fn save(&self, offsets: &Vec<i64>) -> (r: Option<Writing>)
        ensures
            match writing(self@, offsets@) {
                Some((path, body)) => r matches Some(w) && w.path@ == path && w.body@ == body,
                None => r is None,
            },
    {
        if !self.dirty {
            return None;
        }
        match &self.path {
            Some(p) => Some(Writing { path: p.clone(), body: serialize(&self.entries, offsets) }),
            None => None,
        }
    }

    /// The log has been written.
    pub fn saved(&mut self)
        requires
            old(self).wf(),
        ensures
            final(self).wf(),
            final(self)@ == (HistoryView { dirty: false, ..old(self)@ }),
    {
        self.dirty = false;
    }

    /// The time of each record, in the order of the log.
    pub fn times(&self) -> (r: Vec<u64>)
        ensures
            r@ == self@.entries.map_values(|e: EntryView| e.when),
    {
        let mut r: Vec<u64> = Vec::new();
        let mut i: usize = 0;
        while i < self.entries.len()
            invariant
                i <= self.entries@.len(),
                r@.len() == i,
                forall|k: int| 0 <= k < i ==> r@[k] == (#[trigger] self.entries@[k]).when,
            decreases self.entries.len() - i,
        {
            r.push(self.entries[i].when);
            i = i + 1;
        }
        assert(r@ =~= self@.entries.map_values(|e: EntryView| e.when));
        r
    }

    /// The locations the log names, for looking them up on the disk.
    pub fn locations(&self) -> (r: Vec<Location>)
        ensures
            r@.map_values(|l: Location| l@) == named(self@.entries),
    {
        let mut r: Vec<Location> = Vec::new();
        let mut i: usize = 0;
        let ghost s = self@.entries;
        assert(s.take(0) =~= seq![]);
        assert(r@.map_values(|l: Location| l@) =~= seq![]);
        while i < self.entries.len()
            invariant
                i <= self.entries@.len(),
                s == entry_views(self.entries@),
                r@.map_values(|l: Location| l@) == named(s.take(i as int)),
            decreases self.entries.len() - i,
        {
            let ghost before = r@.map_values(|l: Location| l@);
            let e = &self.entries[i];
            match &e.midi {
                Some(m) => {
                    r.push(m.clone());
                },
                None => {},
            }
            assert(r@.map_values(|l: Location| l@) =~= before + listed(e@.midi));
            match &e.soundfont {
                Some(m) => {
                    r.push(m.clone());
                },
                None => {},
            }
            proof {
                assert(r@.map_values(|l: Location| l@) =~= before + listed(e@.midi) + listed(
                    e@.soundfont,
                ));
                assert(s.take(i + 1).drop_last() =~= s.take(i as int));
                assert(s.take(i + 1).last() == e@);
            }
            i = i + 1;
        }
        assert(s.take(s.len() as int) =~= s);
        r
    }

    /// The position of the record of a combination.
    fn position(&self, midi: &Option<Location>, soundfont: &Option<Location>) -> (r: Option<usize>)
        ensures
            ({
                let i = find_pair(
                    self@.entries,
                    (
                        vfs::opt_key(vfs::opt_view(*midi)),
                        vfs::opt_key(vfs::opt_view(*soundfont)),
                    ),
                );
                match r {
                    Some(n) => n == i && n < self@.entries.len(),
                    None => i >= self@.entries.len(),
                }
            }),
            r matches Some(n) ==> n < self.entries@.len(),
    {
        let ghost k = (
            vfs::opt_key(vfs::opt_view(*midi)),
            vfs::opt_key(vfs::opt_view(*soundfont)),
        );
        let ghost s = self@.entries;
        let mut i: usize = 0;
        while i < self.entries.len()
            invariant
                i <= self.entries@.len(),
                s == entry_views(self.entries@),
                k == (
                    vfs::opt_key(vfs::opt_view(*midi)),
                    vfs::opt_key(vfs::opt_view(*soundfont)),
                ),
                forall|j: int| 0 <= j < i ==> (#[trigger] s[j]).key() != k,
            decreases self.entries.len() - i,
        {
            let e = &self.entries[i];
            if same_opt(&e.midi, midi) && same_opt(&e.soundfont, soundfont) {
                proof {
                    assert(s[i as int] == e@);
                    lemma_find_pair_is(s, k, i as int);
                }
                return Some(i);
            }
            assert(s[i as int] == e@);
            i = i + 1;
        }
        proof {
            lemma_find_pair_is(s, k, i as int);
        }
        None
    }

    /// Remember that `midi` was played through `soundfont` at `now`.
    ///
    /// An existing record for the same combination moves back to the top and
    /// takes the new timestamp. `count` adds to its play tally; it is false for
    /// an automatic repeat of the track already at the top, so leaving a track
    /// looping does not inflate the count of a single listening session. After
    /// a clock change the record goes where its time belongs.
    pub fn record(
        &mut self,
        midi: Option<Location>,
        soundfont: Option<Location>,
        now: u64,
        count: bool,
    )
        requires
            old(self).wf(),
        ensures
            final(self).wf(),
            final(self)@ == if midi is None && soundfont is None {
                old(self)@
            } else {
                HistoryView {
                    entries: recorded(
                        old(self)@.entries,
                        vfs::opt_view(midi),
                        vfs::opt_view(soundfont),
                        now,
                        count,
                    ),
                    dirty: true,
                    ..old(self)@
                }
            },
    {
        if midi.is_none() && soundfont.is_none() {
            return;
        }
        let ghost s = self@.entries;
        let mut out: Vec<Entry> = Vec::new();
        match self.position(&midi, &soundfont) {
            Some(i) => {
                let mut e = self.entries.remove(i);
                e.when = now;
                if count {
                    e.plays = e.plays.saturating_add(1);
                }
                out.push(e);
                out.append(&mut self.entries);
                proof {
                    let plays = if count { add_plays(s[i as int].plays, 1) } else { s[i as int].plays };
                    assert(entry_views(out@) =~= seq![
                        EntryView { when: now, plays, ..s[i as int] },
                    ] + s.remove(i as int));
                }
            },
            None => {
                let ghost m = vfs::opt_view(midi);
                let ghost f = vfs::opt_view(soundfont);
                out.push(Entry { midi, soundfont, when: now, plays: 1 });
                out.append(&mut self.entries);
                assert(entry_views(out@) =~= seq![
                    EntryView { midi: m, soundfont: f, when: now, plays: 1 },
                ] + s);
            },
        }
        self.entries = sort_newest(out);
        self.dirty = true;
    }

    /// Drop the given log entries (the indices behind one displayed row).
    pub fn forget(&mut self, idxs: &Vec<usize>)
        requires
            old(self).wf(),
        ensures
            final(self).wf(),
            final(self)@.entries == without(old(self)@.entries, idxs@),
            final(self)@.path == old(self)@.path,
            final(self)@.dirty == (old(self)@.dirty || final(self)@.entries.len()
                < old(self)@.entries.len()),
    {
        let ghost first = self@;
        let ghost all = self@.entries;
        let count: usize = self.entries.len();
        let mut done: usize = 0;
        let mut at: usize = 0;
        assert(all.take(0) =~= seq![]);
        assert(all.skip(0) =~= all);
        while done < count
            invariant
                count == all.len(),
                all == first.entries,
                at <= done <= count,
                self.wf(),
                without(all.take(done as int), idxs@).len() == at,
                self@.entries == without(all.take(done as int), idxs@) + all.skip(done as int),
                self@.path == first.path,
                self@.dirty == (first.dirty || at < done),
            decreases count - done,
        {
            let ghost s = self@.entries;
            let ghost front = without(all.take(done as int), idxs@);
            assert(all.take(done + 1).drop_last() =~= all.take(done as int));
            assert(all.take(done + 1).last() == all[done as int]);
            assert(s.len() == at + (count - done));
            assert(s[at as int] == all.skip(done as int)[0]);
            if holds(idxs, done) {
                self.entries.remove(at);
                self.dirty = true;
                proof {
                    assert(self@.entries =~= s.remove(at as int));
                    assert(self@.entries =~= front + all.skip(done + 1));
                    assert forall|a: int, b: int|
                        0 <= a < b < self@.entries.len() implies (#[trigger] self@.entries[a]).when
                        >= (#[trigger] self@.entries[b]).when by {
                        let a2 = if a < at { a } else { a + 1 };
                        let b2 = if b < at { b } else { b + 1 };
                        assert(self@.entries[a] == s[a2] && self@.entries[b] == s[b2]);
                    }
                }
            } else {
                assert(s =~= front.push(all[done as int]) + all.skip(done + 1));
                at = at + 1;
            }
            done = done + 1;
        }
        assert(all.take(count as int) =~= all);
        assert(self@.entries =~= without(all, idxs@));
    }

    pub fn clear(&mut self)
        requires
            old(self).wf(),
        ensures
            final(self).wf(),
            final(self)@ == if old(self)@.entries.len() > 0 {
                HistoryView { entries: seq![], dirty: true, ..old(self)@ }
            } else {
                old(self)@
            },
    {
        if self.entries.len() > 0 {
            self.entries.clear();
            self.dirty = true;
            assert(self@.entries =~= seq![]);
        }
    }

    pub fn len(&self) -> (r: usize)
        ensures
            r == self@.entries.len(),
    {
        self.entries.len()
    }

    pub fn is_empty(&self) -> (r: bool)
        ensures
            r == (self@.entries.len() == 0),
    {
        self.entries.len() == 0
    }

    /// How often the pair was played; 0 for one that was not.
    pub fn plays_of(&self, midi: &Location, soundfont: &Location) -> (r: u32)
        ensures
            r == pair_plays(self@.entries, midi@, soundfont@),
    {
        match self.position(&Some(midi.clone()), &Some(soundfont.clone())) {
            Some(i) => self.entries[i].plays,
            None => 0,
        }
    }

    /// Build the rows of `view`, keeping only those matching the
    /// case-insensitive `filter` (matched against what the row displays).
    pub fn rows(&self, view: View, filter: &str, disk: &Disk) -> (r: Vec<Row>)
        ensures
            row_views(r@) == filtered(all_rows(self@.entries, view, disk@), filter@),
    {
        let rows = match view {
            View::Pairs => self.pair_rows(disk),
            _ => self.grouped_rows(view, disk),
        };
        filter_rows(rows, filter)
    }

    fn row_of(&self, i: usize, disk: &Disk) -> (r: Row)
        requires
            i < self.entries@.len(),
        ensures
            r@ == pair_row(self@.entries[i as int], i as int, disk@),
    {
        let e = &self.entries[i];
        let mut idxs: Vec<usize> = Vec::new();
        idxs.push(i);
        let r = Row {
            midi: clone_loc(&e.midi),
            soundfont: clone_loc(&e.soundfont),
            when: e.when,
            plays: e.plays,
            idxs,
            gone: is_gone(&e.midi, &e.soundfont, disk),
        };
        assert(r@.idxs =~= seq![i]);
        r
    }

    fn pair_rows(&self, disk: &Disk) -> (r: Vec<Row>)
        ensures
            row_views(r@) == all_rows(self@.entries, View::Pairs, disk@),
    {
        let mut out: Vec<Row> = Vec::new();
        let mut i: usize = 0;
        while i < self.entries.len()
            invariant
                i <= self.entries@.len(),
                out@.len() == i,
                forall|k: int|
                    0 <= k < i ==> (#[trigger] out@[k])@ == pair_row(self@.entries[k], k, disk@),
            decreases self.entries.len() - i,
        {
            out.push(self.row_of(i, disk));
            i = i + 1;
        }
        assert(row_views(out@) =~= all_rows(self@.entries, View::Pairs, disk@));
        out
    }

    /// Group the log by one side, preserving the newest-first order.
    fn grouped_rows(&self, view: View, disk: &Disk) -> (r: Vec<Row>)
        ensures
            row_views(r@) == grouped(self@.entries, self@.entries.len() as int, view, disk@),
    {
        let ghost s = self@.entries;
        let mut rows: Vec<Row> = Vec::new();
        let mut i: usize = 0;
        assert(row_views(rows@) =~= seq![]);
        while i < self.entries.len()
            invariant
                i <= self.entries@.len(),
                s == self@.entries,
                row_views(rows@) == grouped(s, i as int, view, disk@),
            decreases self.entries.len() - i,
        {
            let ghost before = row_views(rows@);
            let e = &self.entries[i];
            assert(s[i as int] == e@);
            let k = match view {
                View::Fonts => &e.soundfont,
                _ => &e.midi,
            };
            let ghost key = group_key(view, e@.midi, e@.soundfont);
            assert(key == vfs::opt_key(vfs::opt_view(*k)));
            if k.is_some() {
                let mut r: usize = 0;
                let mut found: bool = false;
                while r < rows.len() && !found
                    invariant
                        r <= rows@.len(),
                        before == row_views(rows@),
                        key == vfs::opt_key(vfs::opt_view(*k)),
                        forall|j: int|
                            0 <= j < r ==> group_key(
                                view,
                                (#[trigger] before[j]).midi,
                                before[j].soundfont,
                            ) != key,
                        found ==> r < rows@.len() && group_key(
                            view,
                            before[r as int].midi,
                            before[r as int].soundfont,
                        ) == key,
                    decreases rows.len() - r + if found { 0int } else { 1int },
                {
                    assert(before[r as int] == rows@[r as int]@);
                    let side = match view {
                        View::Fonts => &rows[r].soundfont,
                        _ => &rows[r].midi,
                    };
                    if same_opt(side, k) {
                        found = true;
                    } else {
                        r = r + 1;
                    }
                }
                proof {
                    lemma_find_group_is(before, view, key, r as int);
                }
                if found {
                    let mut row = rows[r].clone();
                    row.plays = row.plays.saturating_add(e.plays);
                    row.idxs.push(i);
                    rows.set(r, row);
                    assert(row_views(rows@) =~= grouped(s, i + 1, view, disk@));
                } else {
                    rows.push(self.row_of(i, disk));
                    assert(row_views(rows@) =~= grouped(s, i + 1, view, disk@));
                }
            }
            i = i + 1;
        }
        rows
    }
}

/// A location, if it is there, as a list.
pub open spec fn listed(l: Option<LocView>) -> Seq<LocView> {
    match l {
        Some(x) => seq![x],
        None => seq![],
    }
}

/// The locations that records name, each record's track before its font.
pub open spec fn named(s: Seq<EntryView>) -> Seq<LocView>
    decreases s.len(),
{
    if s.len() == 0 {
        seq![]
    } else {
        named(s.drop_last()) + listed(s.last().midi) + listed(s.last().soundfont)
    }
}

/// What is to be written of a log, and where: nothing when it has not changed,
/// or has no file.
pub open spec fn writing(v: HistoryView, offsets: Seq<i64>) -> Option<(Seq<char>, Seq<char>)> {
    if v.dirty && v.path is Some {
        Some((v.path->0, conf::unlines(file_lines(v.entries, offsets))))
    } else {
        None
    }
}

/// A history as it is when read from a file that holds `body`.
pub open spec fn loaded(path: Seq<char>, body: Option<Seq<char>>) -> HistoryView {
    HistoryView {
        entries: newest_first(
            match body {
                Some(b) => parsed(b),
                None => seq![],
            },
        ),
        path: Some(path),
        dirty: false,
    }
}

/// True when `i` is among the positions.
fn holds(idxs: &Vec<usize>, i: usize) -> (r: bool)
    ensures
        r == idxs@.contains(i),
{
    let mut k: usize = 0;
    while k < idxs.len()
        invariant
            k <= idxs@.len(),
            forall|j: int| 0 <= j < k ==> #[trigger] idxs@[j] != i,
        decreases idxs.len() - k,
    {
        if idxs[k] == i {
            assert(idxs@[k as int] == i);
            return true;
        }
        k = k + 1;
    }
    false
}

/// Parse the stanza file body. Unknown keys and malformed records are skipped
/// rather than rejected, so a file written by a newer (or interrupted) version
/// still loads.
pub fn parse(body: &str) -> (r: Vec<Entry>)
    ensures
        entry_views(r@) == parsed(body@),
{
    let lines = split_lines(body);
    let ghost t = text::texts(lines@);
    let mut out: Vec<Entry> = Vec::new();
    let mut cur: Option<Entry> = None;
    let mut i: usize = 0;
    assert(t.take(0) =~= seq![]);
    assert(entry_views(out@) =~= seq![]);
    while i < lines.len()
        invariant
            i <= lines@.len(),
            t == text::texts(lines@),
            reading(t.take(i as int)) == (Reading {
                done: entry_views(out@),
                cur: match cur {
                    Some(e) => Some(e@),
                    None => None,
                },
            }),
        decreases lines.len() - i,
    {
        let ghost before = reading(t.take(i as int));
        proof {
            assert(t.take(i + 1).drop_last() =~= t.take(i as int));
            assert(t.take(i + 1).last() == lines@[i as int]@);
            reveal_strlit("[play]");
            assert("[play]"@ =~= play_mark());
        }
        match read_line(lines[i].as_str(), "[play]") {
            ConfLine::Skip => {},
            ConfLine::Mark => {
                finish(cur, &mut out);
                cur = Some(Entry { midi: None, soundfont: None, when: 0, plays: 1 });
            },
            ConfLine::Pair { key, val } => {
                cur = match cur {
                    Some(e) => Some(set_field(e, key.as_str(), val.as_str())),
                    None => None,
                };
            },
        }
        i = i + 1;
    }
    assert(t.take(t.len() as int) =~= t);
    finish(cur, &mut out);
    out
}

/// Keep the record that was being read, if it is whole.
fn finish(cur: Option<Entry>, out: &mut Vec<Entry>)
    ensures
        entry_views(final(out)@) == (Reading {
            done: entry_views(old(out)@),
            cur: match cur {
                Some(e) => Some(e@),
                None => None,
            },
        }).finish(),
{
    let ghost before = entry_views(out@);
    match cur {
        Some(e) => {
            if e.when > 0 && (e.midi.is_some() || e.soundfont.is_some()) {
                out.push(e);
                assert(entry_views(out@) =~= before.push(e@));
            }
        },
        None => {},
    }
}

fn set_field(e: Entry, key: &str, val: &str) -> (r: Entry)
    ensures
        r@ == with_field(e@, key@, val@),
{
    let mut e = e;
    proof {
        lemma_keys_differ();
    }
    if same_text(key, "when") {
        e.when = match parse_number(val, u64::MAX) {
            Some(n) => n,
            None => 0,
        };
    } else if same_text(key, "plays") {
        e.plays = match parse_number(val, u32::MAX as u64) {
            Some(n) => if n == 0 { 1 } else { n as u32 },
            None => 1,
        };
    } else if same_text(key, "midi") {
        e.midi = Some(Location::decode(val));
    } else if same_text(key, "sf") {
        e.soundfont = Some(Location::decode(val));
    }
    e
}

pub proof fn lemma_keys_differ()
    ensures
        "when"@ != "plays"@,
        "when"@ != "midi"@,
        "when"@ != "sf"@,
        "plays"@ != "midi"@,
        "plays"@ != "sf"@,
        "midi"@ != "sf"@,
        conf::is_key("when"@),
        conf::is_key("plays"@),
        conf::is_key("midi"@),
        conf::is_key("sf"@),
{
    reveal_strlit("when");
    reveal_strlit("plays");
    reveal_strlit("midi");
    reveal_strlit("sf");
    assert("when"@[0] == 'w' && "midi"@[0] == 'm');
    assert("when"@ =~= seq!['w', 'h', 'e', 'n']);
    assert("plays"@ =~= seq!['p', 'l', 'a', 'y', 's']);
    assert("midi"@ =~= seq!['m', 'i', 'd', 'i']);
    assert("sf"@ =~= seq!['s', 'f']);
}

/// Render the log, newest first, with each timestamp also spelled out as a
/// comment so the file is readable as it stands.
pub fn serialize(entries: &Vec<Entry>, offsets: &Vec<i64>) -> (r: String)
    ensures
        r@ == conf::unlines(file_lines(entry_views(entries@), offsets@)),
{
    let ghost s = entry_views(entries@);
    let ghost head = seq!["# voxfont playing history v1"@, "# Newest first. Times below are local."@];
    let mut out = String::new();
    push_line(&mut out, "# voxfont playing history v1");
    push_line(&mut out, "# Newest first. Times below are local.");
    proof {
        reveal_with_fuel(conf::unlines, 3);
        assert(head.drop_last() =~= seq!["# voxfont playing history v1"@]);
        assert(head.drop_last().drop_last() =~= seq![]);
        assert(out@ =~= conf::unlines(head));
        assert(entries_lines(s, 0, offsets@) =~= seq![]);
        assert(head + entries_lines(s, 0, offsets@) =~= head);
    }
    let mut i: usize = 0;
    while i < entries.len()
        invariant
            i <= entries@.len(),
            s == entry_views(entries@),
            out@ == conf::unlines(head + entries_lines(s, i as int, offsets@)),
        decreases entries.len() - i,
    {
        let e = &entries[i];
        let offset: i64 = if i < offsets.len() { offsets[i] } else { 0 };
        let ghost before = head + entries_lines(s, i as int, offsets@);
        let ghost o = offset_at(offsets@, i as int);
        assert(s[i as int] == e@);
        write_entry(&mut out, e, offset);
        proof {
            conf::lemma_unlines_append(before, entry_lines(e@, o));
            assert(before + entry_lines(e@, o) =~= head + entries_lines(s, i + 1, offsets@));
        }
        i = i + 1;
    }
    out
}

/// Put the lines of a record at the end of a text.
fn write_entry(out: &mut String, e: &Entry, offset: i64)
    ensures
        final(out)@ == old(out)@ + conf::unlines(entry_lines(e@, offset as int)),
{
    let ghost start = out@;
    let mut stamp = "# ".to_owned();
    let t = fmt_stamp_at(e.when, offset, true);
    stamp.append(t.as_str());
    let when = dec_text(e.when);
    let plays = dec_text(e.plays as u64);
    let l1 = pair_text("when", when.as_str());
    let l2 = pair_text("plays", plays.as_str());
    let empty = String::new();
    push_line(out, empty.as_str());
    push_line(out, stamp.as_str());
    push_line(out, "[play]");
    push_line(out, l1.as_str());
    push_line(out, l2.as_str());
    proof {
        reveal_strlit("[play]");
        assert("[play]"@ =~= play_mark());
        let v = seq![empty@, stamp@, play_mark(), l1@, l2@];
        assert(empty@ =~= seq![]);
        lemma_unlines_five(v);
        assert(out@ =~= start + conf::unlines(v));
    }
    let ghost v = seq![empty@, stamp@, play_mark(), l1@, l2@];
    write_loc(out, "midi", &e.midi);
    write_loc(out, "sf", &e.soundfont);
    proof {
        let m = loc_line("midi"@, e@.midi);
        let f = loc_line("sf"@, e@.soundfont);
        conf::lemma_unlines_append(v + m, f);
        conf::lemma_unlines_append(v, m);
        assert(out@ =~= start + conf::unlines(v + m + f));
        assert(v + m + f =~= entry_lines(e@, offset as int));
    }
}

/// Five written lines.
pub proof fn lemma_unlines_five(v: Seq<Seq<char>>)
    requires
        v.len() == 5,
    ensures
        conf::unlines(v) == v[0].push('\n') + v[1].push('\n') + v[2].push('\n') + v[3].push('\n')
            + v[4].push('\n'),
{
    reveal_with_fuel(conf::unlines, 6);
    assert(conf::unlines(v) =~= v[0].push('\n') + v[1].push('\n') + v[2].push('\n') + v[3].push(
        '\n',
    ) + v[4].push('\n'));
}

/// Put the line of an optional location at the end of a text.
pub fn write_loc(out: &mut String, key: &str, l: &Option<Location>)
    ensures
        final(out)@ == old(out)@ + conf::unlines(loc_line(key@, vfs::opt_view(*l))),
{
    let ghost start = out@;
    match l {
        Some(x) => {
            let val = x.encode();
            let line = pair_text(key, val.as_str());
            push_line(out, line.as_str());
            proof {
                let v = seq![line@];
                assert(v.drop_last() =~= seq![]);
                reveal_with_fuel(conf::unlines, 2);
                assert(conf::unlines(v) =~= line@.push('\n'));
            }
        },
        None => {
            assert(out@ =~= start + conf::unlines(seq![]));
        },
    }
}

} // verus!
