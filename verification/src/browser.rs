//! A single directory-browser panel: lists subdirectories and files matching a
//! set of extensions, with a movable selection. Directories and archives are
//! addressed uniformly through [`Location`], so a zip is browsed exactly like a
//! directory.
//!
//! What a directory holds is handed in with each operation that lists one, as
//! the children of the directory that the operation leads to.

use crate::cursor;
use crate::cursor::Cursor;
use crate::midi::Length;
use crate::paths;
use crate::paths::{extension_of, same_path};
use crate::sorting;
use crate::sorting::{sort_positions, ByText};
use crate::text;
use crate::text::{chars_of, contains, same_text, to_lower};
use crate::vfs;
use crate::vfs::{ChildView, DirChild, LocKey, LocView, Location};
use vstd::prelude::*;
use vstd::string::*;

verus! {

/// One row of a panel.
#[derive(Debug)]
pub struct Entry {
    pub name: String,
    pub loc: Location,
    pub is_dir: bool,
    /// True for the synthetic ".." parent entry.
    pub is_parent: bool,
    /// File size in bytes (0 for plain directories and for archive members).
    pub size: u64,
    /// Length of a MIDI file, when computed.
    pub length: Option<Length>,
}

/// A row of a panel, with its texts.
#[verifier::ext_equal]
pub struct EntryView {
    pub name: Seq<char>,
    pub loc: LocView,
    pub is_dir: bool,
    pub is_parent: bool,
    pub size: u64,
    pub length: Option<Length>,
}

impl View for Entry {
    type V = EntryView;

    open spec fn view(&self) -> EntryView {
        EntryView {
            name: self.name@,
            loc: self.loc@,
            is_dir: self.is_dir,
            is_parent: self.is_parent,
            size: self.size,
            length: self.length,
        }
    }
}

impl Clone for Entry {
    fn clone(&self) -> (r: Self)
        ensures
            r == *self,
    {
        Entry {
            name: self.name.clone(),
            loc: self.loc.clone(),
            is_dir: self.is_dir,
            is_parent: self.is_parent,
            size: self.size,
            length: self.length,
        }
    }
}

/// The rows in a list.
pub open spec fn entry_views(v: Seq<Entry>) -> Seq<EntryView> {
    v.map_values(|e: Entry| e@)
}

/// A panel.
pub struct Browser {
    dir: Location,
    /// The full directory/archive listing, before the search filter.
    all: Vec<Entry>,
    /// Visible listing: `all` narrowed to entries matching `filter`. The UI and
    /// all cursor operations work on this, so navigation stays within matches.
    pub entries: Vec<Entry>,
    /// Active case-insensitive name filter; empty means show everything.
    filter: String,
    pub state: Cursor,
    /// Lower-case extensions (without dot) of the files the panel is for.
    exts: Vec<String>,
    /// Lower-case extensions of further files that are shown.
    also: Vec<String>,
    pub show_hidden: bool,
    /// When true, MIDI files show their length.
    compute_duration: bool,
    /// When true, `.zip` files are shown as enterable directories. Only the
    /// MIDI panel browses archives; the SoundFont panel leaves them out.
    allow_archives: bool,
}

/// A panel, with its texts.
#[verifier::ext_equal]
pub struct BrowserView {
    pub dir: LocView,
    pub all: Seq<EntryView>,
    pub entries: Seq<EntryView>,
    pub filter: Seq<char>,
    pub at: Option<usize>,
    pub exts: Seq<Seq<char>>,
    pub also: Seq<Seq<char>>,
    pub show_hidden: bool,
    pub compute_duration: bool,
    pub allow_archives: bool,
}

impl View for Browser {
    type V = BrowserView;

    closed spec fn view(&self) -> BrowserView {
        BrowserView {
            dir: self.dir@,
            all: entry_views(self.all@),
            entries: entry_views(self.entries@),
            filter: self.filter@,
            at: self.state.at,
            exts: text::texts(self.exts@),
            also: text::texts(self.also@),
            show_hidden: self.show_hidden,
            compute_duration: self.compute_duration,
            allow_archives: self.allow_archives,
        }
    }
}

// --- what a panel lists -----------------------------------------------------

/// True when the lower-cased extension of `name` is one of `exts`.
pub open spec fn ext_among(name: Seq<char>, exts: Seq<Seq<char>>) -> bool {
    paths::extension(name) matches Some(e) && exts.contains(text::lower(e))
}

/// The row of a child.
pub open spec fn row_of(c: ChildView, compute_duration: bool) -> EntryView {
    EntryView {
        name: c.name,
        loc: c.loc,
        is_dir: c.is_dir,
        is_parent: false,
        size: c.size,
        length: if !c.is_dir && compute_duration && c.loc is Fs {
            c.length
        } else {
            None
        },
    }
}

/// The keys by which rows are sorted: their lower-cased names.
pub open spec fn name_keys(s: Seq<EntryView>) -> Seq<Seq<int>> {
    sorting::text_keys(s.map_values(|e: EntryView| text::lower(e.name)))
}

/// The rows by name, whatever the letter case.
pub open spec fn by_name(s: Seq<EntryView>) -> Seq<EntryView> {
    sorting::reorder(s, sorting::order(name_keys(s)))
}

/// The rows of children.
pub open spec fn rows_of(v: Seq<ChildView>, compute_duration: bool) -> Seq<EntryView> {
    v.map_values(|c: ChildView| row_of(c, compute_duration))
}

/// Where the first row at `k` is, or the length of `s`.
pub open spec fn find_loc(s: Seq<EntryView>, k: LocKey) -> int
    decreases s.len(),
{
    if s.len() == 0 {
        0
    } else if s[0].loc.key() == k {
        0
    } else {
        1 + find_loc(s.drop_first(), k)
    }
}

/// Where the first row at `k` that is not the parent entry is, or the length of
/// `s`.
pub open spec fn find_item(s: Seq<EntryView>, k: LocKey) -> int
    decreases s.len(),
{
    if s.len() == 0 {
        0
    } else if !s[0].is_parent && s[0].loc.key() == k {
        0
    } else {
        1 + find_item(s.drop_first(), k)
    }
}

/// How many rows are not the parent entry.
pub open spec fn count_items(s: Seq<EntryView>) -> nat
    decreases s.len(),
{
    if s.len() == 0 {
        0
    } else {
        count_items(s.drop_last()) + if s.last().is_parent {
            0nat
        } else {
            1
        }
    }
}

impl BrowserView {
    /// True when a name is not hidden by its leading dot.
    pub open spec fn visible(self, name: Seq<char>) -> bool {
        self.show_hidden || !(name.len() > 0 && name[0] == '.')
    }

    /// True for a child listed as a directory.
    pub open spec fn lists_dir(self, c: ChildView) -> bool {
        self.visible(c.name) && c.is_dir
    }

    /// True for a child listed as a file.
    pub open spec fn lists_file(self, c: ChildView) -> bool {
        self.visible(c.name) && !c.is_dir && (ext_among(c.name, self.exts) || ext_among(
            c.name,
            self.also,
        ))
    }

    /// True for a child that can be played (or loaded) from this panel.
    pub open spec fn lists_playable(self, c: ChildView) -> bool {
        self.visible(c.name) && !c.is_dir && ext_among(c.name, self.exts)
    }

    /// The ".." entry, unless there is nothing above the directory.
    pub open spec fn parent_row(self) -> Seq<EntryView> {
        match self.dir.parent() {
            Some(p) => seq![
                EntryView {
                    name: seq!['.', '.'],
                    loc: p,
                    is_dir: true,
                    is_parent: true,
                    size: 0,
                    length: None,
                },
            ],
            None => seq![],
        }
    }

    /// The full listing of a directory with these children: the ".." entry,
    /// then the directories, then the files, each by name.
    pub open spec fn listing(self, children: Seq<ChildView>) -> Seq<EntryView> {
        self.parent_row() + by_name(
            rows_of(children.filter(|c: ChildView| self.lists_dir(c)), self.compute_duration),
        ) + by_name(
            rows_of(children.filter(|c: ChildView| self.lists_file(c)), self.compute_duration),
        )
    }

    /// The files of a directory with these children that can be played, by
    /// name.
    pub open spec fn playable(self, children: Seq<ChildView>) -> Seq<EntryView> {
        by_name(
            rows_of(children.filter(|c: ChildView| self.lists_playable(c)), self.compute_duration),
        )
    }

    /// The rows whose names hold the filter.
    pub open spec fn matching(self) -> Seq<EntryView> {
        if self.filter.len() == 0 {
            self.all
        } else {
            self.all.filter(|e: EntryView| text::has(text::lower(e.name), self.filter))
        }
    }

    /// The row under the cursor.
    pub open spec fn selected(self) -> Option<EntryView> {
        match self.at {
            Some(i) => if i < self.entries.len() {
                Some(self.entries[i as int])
            } else {
                None
            },
            None => None,
        }
    }

    /// With the visible rows made anew, the cursor kept on the same item when
    /// it survives (otherwise the top).
    pub open spec fn refiltered(self) -> BrowserView {
        let es = self.matching();
        BrowserView {
            entries: es,
            at: if es.len() == 0 {
                None
            } else {
                Some(
                    match self.selected() {
                        Some(e) => {
                            let i = find_loc(es, e.loc.key());
                            if i < es.len() {
                                i as usize
                            } else {
                                0
                            }
                        },
                        None => 0,
                    },
                )
            },
            ..self
        }
    }

    /// With the directory listed anew.
    pub open spec fn refreshed(self, children: Seq<ChildView>) -> BrowserView {
        (BrowserView { all: self.listing(children), ..self }).refiltered()
    }

    /// At another location, whose listing starts unfiltered.
    pub open spec fn moved_to(self, loc: LocView, children: Seq<ChildView>) -> BrowserView {
        (BrowserView { dir: loc, filter: seq![], at: Some(0), ..self }).refreshed(children)
    }

    /// With the cursor on the item at `k`, if it is listed.
    pub open spec fn on_item(self, k: LocKey) -> BrowserView {
        let i = find_item(self.entries, k);
        if i < self.entries.len() {
            BrowserView { at: Some(i as usize), ..self }
        } else {
            self
        }
    }

    /// In the directory that holds `loc`, with the cursor on it.
    pub open spec fn revealed(self, loc: LocView, children: Seq<ChildView>) -> BrowserView {
        match loc.parent() {
            Some(p) => (if self.dir.key() != p.key() {
                self.moved_to(p, children)
            } else {
                self
            }).on_item(loc.key()),
            None => self,
        }
    }

    /// One directory up, with the cursor on the one that was left.
    pub open spec fn above(self, children: Seq<ChildView>) -> BrowserView {
        match self.dir.parent() {
            Some(p) => self.moved_to(p, children).on_item(self.dir.key()),
            None => self,
        }
    }

    /// In the directory (or archive) at the cursor.
    pub open spec fn entered(self, children: Seq<ChildView>) -> BrowserView {
        match self.selected() {
            Some(e) => if e.is_parent {
                self.above(children)
            } else if e.is_dir {
                self.moved_to(e.loc, children)
            } else {
                self
            },
            None => self,
        }
    }

    /// True when `loc` is a member of an archive in the current directory, or
    /// of the archive the panel is in.
    pub open spec fn reaches_into(self, loc: LocView) -> bool {
        match loc {
            LocView::Zip { archive, inner } => match self.dir {
                LocView::Fs(d) => paths::key(d) == paths::key(vfs::dir_of(archive)),
                LocView::Zip { archive: a, inner: _ } => paths::key(a) == paths::key(archive),
            },
            LocView::Fs(_) => false,
        }
    }

    /// The directory that entering the row at the cursor leads to.
    pub open spec fn entering(self) -> Option<LocView> {
        match self.selected() {
            Some(e) => if e.is_parent {
                self.dir.parent()
            } else if e.is_dir {
                Some(e.loc)
            } else {
                None
            },
            None => None,
        }
    }

    /// The directory that revealing `loc` leads to, unless the panel is there.
    pub open spec fn revealing(self, loc: LocView) -> Option<LocView> {
        match loc.parent() {
            Some(p) => if self.dir.key() != p.key() {
                Some(p)
            } else {
                None
            },
            None => None,
        }
    }

    /// The directory of an archive that going to `loc` steps into.
    pub open spec fn stepping_into(self, loc: LocView) -> Option<LocView> {
        if self.reaches_into(loc) {
            self.revealing(loc)
        } else {
            None
        }
    }

    /// With the cursor on `loc`, inside an archive that can be stepped into.
    pub open spec fn deeply_on(self, loc: LocView, children: Seq<ChildView>) -> BrowserView {
        if self.reaches_into(loc) {
            self.revealed(loc, children)
        } else {
            self.on_item(loc.key())
        }
    }

    /// The cursor is on a row, unless there is none; and what is shown is what
    /// matches the filter.
    pub open spec fn wf(self) -> bool {
        &&& self.at is None <==> self.entries.len() == 0
        &&& self.at matches Some(i) ==> i < self.entries.len()
        &&& self.entries == self.matching()
    }
}

// --- working on a panel -----------------------------------------------------

pub proof fn lemma_find_loc(s: Seq<EntryView>, k: LocKey)
    ensures
        0 <= find_loc(s, k) <= s.len(),
        find_loc(s, k) < s.len() ==> s[find_loc(s, k)].loc.key() == k,
        forall|i: int| 0 <= i < find_loc(s, k) ==> (#[trigger] s[i]).loc.key() != k,
    decreases s.len(),
{
    if s.len() > 0 && s[0].loc.key() != k {
        let t = s.drop_first();
        lemma_find_loc(t, k);
        assert forall|i: int| 0 <= i < find_loc(s, k) implies (#[trigger] s[i]).loc.key() != k by {
            if i > 0 {
                assert(s[i] == t[i - 1]);
            }
        }
    }
}

proof fn lemma_find_loc_is(s: Seq<EntryView>, k: LocKey, n: int)
    requires
        0 <= n <= s.len(),
        n < s.len() ==> s[n].loc.key() == k,
        forall|i: int| 0 <= i < n ==> (#[trigger] s[i]).loc.key() != k,
    ensures
        find_loc(s, k) == n,
{
    lemma_find_loc(s, k);
    let f = find_loc(s, k);
    if f < n {
        assert(s[f].loc.key() == k);
    }
    if n < f {
        assert(s[n].loc.key() != k);
    }
}

pub proof fn lemma_find_item(s: Seq<EntryView>, k: LocKey)
    ensures
        0 <= find_item(s, k) <= s.len(),
        find_item(s, k) < s.len() ==> !s[find_item(s, k)].is_parent && s[find_item(s, k)].loc.key()
            == k,
        forall|i: int|
            0 <= i < find_item(s, k) ==> (#[trigger] s[i]).is_parent || s[i].loc.key() != k,
    decreases s.len(),
{
    if s.len() > 0 && (s[0].is_parent || s[0].loc.key() != k) {
        let t = s.drop_first();
        lemma_find_item(t, k);
        assert forall|i: int| 0 <= i < find_item(s, k) implies (#[trigger] s[i]).is_parent
            || s[i].loc.key() != k by {
            if i > 0 {
                assert(s[i] == t[i - 1]);
            }
        }
    }
}

proof fn lemma_find_item_is(s: Seq<EntryView>, k: LocKey, n: int)
    requires
        0 <= n <= s.len(),
        n < s.len() ==> !s[n].is_parent && s[n].loc.key() == k,
        forall|i: int| 0 <= i < n ==> (#[trigger] s[i]).is_parent || s[i].loc.key() != k,
    ensures
        find_item(s, k) == n,
{
    lemma_find_item(s, k);
    let f = find_item(s, k);
    if f < n {
        assert(!s[f].is_parent && s[f].loc.key() == k);
    }
    if n < f {
        assert(s[n].is_parent || s[n].loc.key() != k);
    }
}

fn has_listed_ext(name: &str, exts: &Vec<String>) -> (r: bool)
    ensures
        r == ext_among(name@, text::texts(exts@)),
{
    let ghost t = text::texts(exts@);
    match extension_of(name) {
        Some(e) => {
            let low = to_lower(e.as_str());
            let mut i: usize = 0;
            while i < exts.len()
                invariant
                    i <= exts@.len(),
                    t == text::texts(exts@),
                    low@ == text::lower(e@),
                    paths::extension(name@) == Some(e@),
                    forall|k: int| 0 <= k < i ==> #[trigger] t[k] != low@,
                decreases exts.len() - i,
            {
                assert(t[i as int] == exts@[i as int]@);
                if same_text(exts[i].as_str(), low.as_str()) {
                    assert(t.contains(low@));
                    return true;
                }
                i = i + 1;
            }
            assert(!t.contains(low@)) by {
                if t.contains(low@) {
                    let k = choose|k: int| 0 <= k < t.len() && t[k] == low@;
                    assert(t[k] != low@);
                }
            }
            false
        },
        None => false,
    }
}

fn sort_by_name(v: Vec<Entry>) -> (r: Vec<Entry>)
    ensures
        entry_views(r@) == by_name(entry_views(v@)),
{
    let ghost s = entry_views(v@);
    let mut rows: Vec<Vec<char>> = Vec::new();
    let mut i: usize = 0;
    while i < v.len()
        invariant
            i <= v@.len(),
            rows@.len() == i,
            forall|k: int| 0 <= k < i ==> (#[trigger] rows@[k])@ == text::lower(v@[k].name@),
        decreases v.len() - i,
    {
        let low = to_lower(v[i].name.as_str());
        rows.push(chars_of(low.as_str()));
        i = i + 1;
    }
    let by = ByText { rows };
    let at = sort_positions(&by);
    let ghost keys = name_keys(s);
    proof {
        let names = s.map_values(|e: EntryView| text::lower(e.name));
        assert(by.texts() =~= names);
    }
    let mut out: Vec<Entry> = Vec::new();
    let mut k: usize = 0;
    while k < at.len()
        invariant
            k <= at@.len(),
            at@.len() == v@.len(),
            forall|j: int| 0 <= j < at@.len() ==> #[trigger] at@[j] < v@.len(),
            out@.len() == k,
            forall|j: int| 0 <= j < k ==> (#[trigger] out@[j]) == v@[at@[j] as int],
        decreases at.len() - k,
    {
        out.push(v[at[k]].clone());
        k = k + 1;
    }
    proof {
        let p = sorting::order(keys);
        assert(p == sorting::ints(at@));
        assert forall|j: int| 0 <= j < out@.len() implies entry_views(out@)[j] == by_name(s)[j] by {
            assert(p[j] == at@[j] as int);
            assert(out@[j] == v@[at@[j] as int]);
        }
        assert(entry_views(out@) =~= by_name(s));
    }
    out
}

proof fn lemma_filter_push<T>(s: Seq<T>, x: T, f: spec_fn(T) -> bool)
    ensures
        s.push(x).filter(f) == if f(x) {
            s.filter(f).push(x)
        } else {
            s.filter(f)
        },
{
    assert(s.push(x).drop_last() =~= s);
    reveal(Seq::filter);
}

proof fn lemma_rows_push(v: Seq<ChildView>, c: ChildView, d: bool)
    ensures
        rows_of(v.push(c), d) == rows_of(v, d).push(row_of(c, d)),
{
    assert(rows_of(v.push(c), d) =~= rows_of(v, d).push(row_of(c, d)));
}

/// Which children are gathered.
#[derive(Clone, Copy, PartialEq, Eq, Structural)]
enum Pick {
    Dirs,
    Files,
    Playable,
}

impl BrowserView {
    spec fn picks(self, pick: Pick, c: ChildView) -> bool {
        match pick {
            Pick::Dirs => self.lists_dir(c),
            Pick::Files => self.lists_file(c),
            Pick::Playable => self.lists_playable(c),
        }
    }
}

impl Browser {
    /// The rows of the children of one kind, by name.
    fn gather(&self, children: &Vec<DirChild>, pick: Pick) -> (r: Vec<Entry>)
        ensures
            entry_views(r@) == by_name(
                rows_of(
                    vfs::child_views(children@).filter(|c: ChildView| self@.picks(pick, c)),
                    self@.compute_duration,
                ),
            ),
    {
        let ghost cs = vfs::child_views(children@);
        let ghost pred = |c: ChildView| self@.picks(pick, c);
        let ghost dur = self@.compute_duration;
        let mut out: Vec<Entry> = Vec::new();
        let mut i: usize = 0;
        proof {
            reveal(Seq::filter);
            assert(cs.take(0) =~= seq![]);
            assert(entry_views(out@) =~= rows_of(cs.take(0).filter(pred), dur));
        }
        while i < children.len()
            invariant
                i <= children@.len(),
                cs == vfs::child_views(children@),
                pred == (|c: ChildView| self@.picks(pick, c)),
                dur == self@.compute_duration,
                entry_views(out@) == rows_of(cs.take(i as int).filter(pred), dur),
            decreases children.len() - i,
        {
            let c = &children[i];
            let ghost before = entry_views(out@);
            let name = c.name.as_str();
            let hidden = name.unicode_len() > 0 && name.get_char(0) == '.';
            let visible = self.show_hidden || !hidden;
            let take = visible && match pick {
                Pick::Dirs => c.is_dir,
                Pick::Files => !c.is_dir && (has_listed_ext(name, &self.exts) || has_listed_ext(
                    name,
                    &self.also,
                )),
                Pick::Playable => !c.is_dir && has_listed_ext(name, &self.exts),
            };
            proof {
                assert(cs[i as int] == c@);
                assert(cs.take(i + 1) =~= cs.take(i as int).push(c@));
                lemma_filter_push(cs.take(i as int), c@, pred);
                assert(take == pred(c@));
                lemma_rows_push(cs.take(i as int).filter(pred), c@, dur);
            }
            if take {
                let on_disk = match &c.loc {
                    Location::Fs(_) => true,
                    Location::Zip { .. } => false,
                };
                // Inside an archive a length would mean unpacking every member
                // just to draw the list, so it is left out there.
                let length = if !c.is_dir && self.compute_duration && on_disk {
                    c.length
                } else {
                    None
                };
                let e = Entry {
                    name: c.name.clone(),
                    loc: c.loc.clone(),
                    is_dir: c.is_dir,
                    is_parent: false,
                    size: c.size,
                    length,
                };
                out.push(e);
                assert(entry_views(out@) =~= before.push(row_of(c@, dur)));
            }
            i = i + 1;
        }
        assert(cs.take(cs.len() as int) =~= cs);
        sort_by_name(out)
    }

    fn make_listing(&self, children: &Vec<DirChild>) -> (r: Vec<Entry>)
        ensures
            entry_views(r@) == self@.listing(vfs::child_views(children@)),
    {
        let ghost cs = vfs::child_views(children@);
        let mut dirs = self.gather(children, Pick::Dirs);
        let mut files = self.gather(children, Pick::Files);
        proof {
            let b = self@;
            let f1 = |c: ChildView| b.picks(Pick::Dirs, c);
            let f2 = |c: ChildView| b.lists_dir(c);
            assert(f1 =~= f2);
            let g1 = |c: ChildView| b.picks(Pick::Files, c);
            let g2 = |c: ChildView| b.lists_file(c);
            assert(g1 =~= g2);
        }
        let mut out: Vec<Entry> = Vec::new();
        match self.dir.parent() {
            Some(p) => {
                let mut name = String::new();
                name.push('.');
                name.push('.');
                assert(name@ =~= seq!['.', '.']);
                out.push(
                    Entry {
                        name,
                        loc: p,
                        is_dir: true,
                        is_parent: true,
                        size: 0,
                        length: None,
                    },
                );
            },
            None => {},
        }
        assert(entry_views(out@) =~= self@.parent_row());
        let ghost a = entry_views(out@);
        let ghost b = entry_views(dirs@);
        let ghost c = entry_views(files@);
        out.append(&mut dirs);
        assert(entry_views(out@) =~= a + b);
        out.append(&mut files);
        assert(entry_views(out@) =~= a + b + c);
        out
    }

    /// Rebuild the visible `entries` from `all` by applying the current filter,
    /// keeping the cursor on the same item when it survives (otherwise the top).
    fn apply_filter(&mut self)
        ensures
            final(self)@ == old(self)@.refiltered(),
    {
        let ghost b = self@;
        let prev: Option<Location> = match self.selected() {
            Some(e) => Some(e.loc.clone()),
            None => None,
        };
        let everything = self.filter.as_str().is_empty();
        let ghost pred = |e: EntryView| text::has(text::lower(e.name), b.filter);
        let mut out: Vec<Entry> = Vec::new();
        let mut i: usize = 0;
        proof {
            reveal(Seq::filter);
            assert(b.all.take(0) =~= seq![]);
            assert(entry_views(out@) =~= b.all.take(0).filter(pred));
            assert(entry_views(out@) =~= b.all.take(0));
        }
        while i < self.all.len()
            invariant
                i <= self.all@.len(),
                b == self@,
                b.all == entry_views(self.all@),
                b.filter == self.filter@,
                everything == (b.filter.len() == 0),
                pred == (|e: EntryView| text::has(text::lower(e.name), b.filter)),
                everything ==> entry_views(out@) == b.all.take(i as int),
                !everything ==> entry_views(out@) == b.all.take(i as int).filter(pred),
            decreases self.all.len() - i,
        {
            let e = &self.all[i];
            let ghost before = entry_views(out@);
            let keep = if everything {
                true
            } else {
                let low = to_lower(e.name.as_str());
                contains(low.as_str(), self.filter.as_str())
            };
            proof {
                assert(b.all[i as int] == e@);
                assert(b.all.take(i + 1) =~= b.all.take(i as int).push(e@));
                lemma_filter_push(b.all.take(i as int), e@, pred);
            }
            if keep {
                out.push(e.clone());
                assert(entry_views(out@) =~= before.push(e@));
            }
            i = i + 1;
        }
        assert(b.all.take(b.all.len() as int) =~= b.all);
        assert(entry_views(out@) == b.matching());
        let ghost es = b.matching();
        let at: Option<usize> = if out.len() == 0 {
            None
        } else {
            match prev {
                Some(l) => {
                    let mut k: usize = 0;
                    while k < out.len() && out[k].loc != l
                        invariant
                            k <= out@.len(),
                            es == entry_views(out@),
                            forall|j: int| 0 <= j < k ==> (#[trigger] es[j]).loc.key() != l@.key(),
                        decreases out.len() - k,
                    {
                        assert(es[k as int] == out@[k as int]@);
                        k = k + 1;
                    }
                    proof {
                        if k < out@.len() {
                            assert(es[k as int] == out@[k as int]@);
                        }
                        lemma_find_loc_is(es, l@.key(), k as int);
                    }
                    Some(if k < out.len() { k } else { 0 })
                },
                None => Some(0),
            }
        };
        self.entries = out;
        self.state.select(at);
        assert(self@ =~= b.refiltered());
    }

    /// Create a browser starting at `dir`, which may be a filesystem directory
    /// or a location inside a saved archive.
    pub fn new_at(
        dir: Location,
        exts: &Vec<String>,
        compute_duration: bool,
        allow_archives: bool,
        children: &Vec<DirChild>,
    ) -> (r: Browser)
        ensures
            r@ == (BrowserView {
                dir: dir@,
                all: seq![],
                entries: seq![],
                filter: seq![],
                at: None,
                exts: lowered(text::texts(exts@)),
                also: seq![],
                show_hidden: false,
                compute_duration,
                allow_archives,
            }).refreshed(vfs::child_views(children@)),
            r@.wf(),
    {
        let mut b = Browser {
            dir,
            all: Vec::new(),
            entries: Vec::new(),
            filter: String::new(),
            state: Cursor::new(),
            exts: lower_all(exts),
            also: Vec::new(),
            show_hidden: false,
            compute_duration,
            allow_archives,
        };
        proof {
            assert(b@ =~= (BrowserView {
                dir: dir@,
                all: seq![],
                entries: seq![],
                filter: seq![],
                at: None,
                exts: lowered(text::texts(exts@)),
                also: seq![],
                show_hidden: false,
                compute_duration,
                allow_archives,
            }));
        }
        b.refresh(children);
        b
    }

    /// Show files of further extensions too, which next and previous pass over.
    pub fn also_listing(self, exts: &Vec<String>, children: &Vec<DirChild>) -> (r: Browser)
        ensures
            r@ == (BrowserView { also: lowered(text::texts(exts@)), ..self@ }).refreshed(
                vfs::child_views(children@),
            ),
            r@.wf(),
    {
        let mut b = self;
        b.also = lower_all(exts);
        b.refresh(children);
        b
    }

    /// List the directory anew.
    pub fn refresh(&mut self, children: &Vec<DirChild>)
        ensures
            final(self)@ == old(self)@.refreshed(vfs::child_views(children@)),
            final(self)@.wf(),
    {
        let ghost b = self@;
        self.all = self.make_listing(children);
        assert(self@ =~= (BrowserView { all: b.listing(vfs::child_views(children@)), ..b }));
        self.apply_filter();
        proof {
            lemma_refiltered_wf(BrowserView { all: b.listing(vfs::child_views(children@)), ..b });
        }
    }

    /// Set the case-insensitive name filter (empty clears it), narrowing the
    /// visible list live without re-reading the directory.
    pub fn set_filter(&mut self, query: &str)
        ensures
            final(self)@ == (BrowserView { filter: text::lower(query@), ..old(self)@ }).refiltered(),
            final(self)@.wf(),
    {
        let ghost b = self@;
        self.filter = to_lower(query);
        assert(self@ =~= (BrowserView { filter: text::lower(query@), ..b }));
        self.apply_filter();
        proof {
            lemma_refiltered_wf(BrowserView { filter: text::lower(query@), ..b });
        }
    }

    /// Show hidden files, or leave them out, from the next listing on.
    pub fn set_hidden(&mut self, show: bool)
        ensures
            final(self)@ == (BrowserView { show_hidden: show, ..old(self)@ }),
    {
        self.show_hidden = show;
    }

    pub fn shows_hidden(&self) -> (r: bool)
        ensures
            r == self@.show_hidden,
    {
        self.show_hidden
    }

    /// True while a search filter is narrowing the list.
    pub fn is_filtered(&self) -> (r: bool)
        ensures
            r == (self@.filter.len() > 0),
    {
        !self.filter.as_str().is_empty()
    }

    pub fn selected(&self) -> (r: Option<&Entry>)
        ensures
            match self@.selected() {
                Some(e) => r matches Some(x) && x@ == e,
                None => r is None,
            },
    {
        match self.state.selected() {
            Some(i) => if i < self.entries.len() {
                Some(&self.entries[i])
            } else {
                None
            },
            None => None,
        }
    }

    /// Display path of the current directory (for panel titles).
    pub fn dir_display(&self) -> (r: String)
        ensures
            r@ == self@.dir.display(),
    {
        self.dir.display()
    }

    /// Number of currently visible entries, excluding the synthetic ".." parent.
    /// With a filter active this is the match count.
    pub fn item_count(&self) -> (r: usize)
        ensures
            r == count_items(self@.entries),
    {
        count_rows(&self.entries)
    }

    /// Total entries in the directory/archive (ignoring any filter), excluding
    /// the synthetic ".." parent.
    pub fn total_count(&self) -> (r: usize)
        ensures
            r == count_items(self@.all),
    {
        count_rows(&self.all)
    }

    /// The current directory location (for session persistence).
    pub fn location(&self) -> (r: Location)
        ensures
            r@ == self@.dir,
    {
        self.dir.clone()
    }

    /// Move the cursor onto the entry at `loc`, if it is in the current listing.
    pub fn select_loc(&mut self, loc: &Location)
        ensures
            final(self)@ == old(self)@.on_item(loc@.key()),
            old(self)@.wf() ==> final(self)@.wf(),
    {
        let ghost b = self@;
        let ghost es = b.entries;
        let mut i: usize = 0;
        while i < self.entries.len()
            invariant
                i <= self.entries@.len(),
                self@ == b,
                b == old(self)@,
                es == entry_views(self.entries@),
                es == b.entries,
                forall|j: int|
                    0 <= j < i ==> (#[trigger] es[j]).is_parent || es[j].loc.key() != loc@.key(),
            decreases self.entries.len() - i,
        {
            assert(es[i as int] == self.entries@[i as int]@);
            if !self.entries[i].is_parent && self.entries[i].loc == *loc {
                proof {
                    lemma_find_item_is(es, loc@.key(), i as int);
                }
                self.state.select(Some(i));
                assert(self@ =~= b.on_item(loc@.key()));
                return;
            }
            i = i + 1;
        }
        proof {
            lemma_find_item_is(es, loc@.key(), i as int);
        }
    }

    /// The directory whose children [`Browser::reveal_loc`] lists for `loc`, if it
    /// has to go there.
    pub fn reveal_target(&self, loc: &Location) -> (r: Option<Location>)
        ensures
            vfs::opt_view(r) == self@.revealing(loc@),
    {
        match loc.parent() {
            Some(p) => if self.dir != p {
                Some(p)
            } else {
                None
            },
            None => None,
        }
    }

    /// Navigate to `loc`'s containing directory/archive (if not already there)
    /// and move the cursor onto it. Spans filesystem directories and zip
    /// archives. `children` are those of the containing directory.
    pub fn reveal_loc(&mut self, loc: &Location, children: &Vec<DirChild>)
        ensures
            final(self)@ == old(self)@.revealed(loc@, vfs::child_views(children@)),
            old(self)@.wf() ==> final(self)@.wf(),
    {
        match loc.parent() {
            Some(p) => {
                if self.dir != p {
                    self.set_loc(p, children);
                }
                self.select_loc(loc);
            },
            None => {},
        }
    }

    /// The directory whose children [`Browser::select_deep`] lists for `loc`,
    /// if it steps into an archive.
    pub fn deep_target(&self, loc: &Location) -> (r: Option<Location>)
        ensures
            vfs::opt_view(r) == self@.stepping_into(loc@),
    {
        if self.reaches(loc) {
            self.reveal_target(loc)
        } else {
            None
        }
    }

    fn reaches(&self, loc: &Location) -> (r: bool)
        ensures
            r == self@.reaches_into(loc@),
    {
        match loc {
            Location::Zip { archive, .. } => match &self.dir {
                Location::Fs(d) => {
                    let root = Location::Zip { archive: archive.clone(), inner: String::new() };
                    let up = root.fs_dir();
                    same_path(d.as_str(), up.as_str())
                },
                Location::Zip { archive: a, .. } => same_path(a.as_str(), archive.as_str()),
            },
            Location::Fs(_) => false,
        }
    }

    /// Put the cursor on `loc` if it is listed; when it is a member of an
    /// archive in the current directory, step into the archive and land on the
    /// member itself rather than stopping at the archive. `children` are those
    /// of the directory that holds it.
    pub fn select_deep(&mut self, loc: &Location, children: &Vec<DirChild>)
        ensures
            final(self)@ == old(self)@.deeply_on(loc@, vfs::child_views(children@)),
            old(self)@.wf() ==> final(self)@.wf(),
    {
        if self.reaches(loc) {
            self.reveal_loc(loc, children);
        } else {
            self.select_loc(loc);
        }
    }

    /// The nearest real filesystem directory, for session persistence and the
    /// "go to directory" prompt (which only operate on the filesystem).
    pub fn fs_dir(&self) -> (r: String)
        ensures
            r@ == self@.dir.fs_dir(),
    {
        self.dir.fs_dir()
    }

    fn set_loc(&mut self, loc: Location, children: &Vec<DirChild>)
        ensures
            final(self)@ == old(self)@.moved_to(loc@, vfs::child_views(children@)),
            final(self)@.wf(),
    {
        let ghost b = self@;
        self.dir = loc;
        // A fresh directory always lists in full; drop any active filter.
        self.filter = String::new();
        self.state.select(Some(0));
        assert(self@ =~= (BrowserView { dir: loc@, filter: seq![], at: Some(0), ..b }));
        self.refresh(children);
    }

    /// Go to a filesystem directory.
    pub fn set_dir(&mut self, dir: String, children: &Vec<DirChild>)
        ensures
            final(self)@ == old(self)@.moved_to(LocView::Fs(dir@), vfs::child_views(children@)),
            final(self)@.wf(),
    {
        self.set_loc(Location::Fs(dir), children);
    }

    /// The directory whose children [`Browser::enter_dir`] lists, if it goes
    /// anywhere.
    pub fn enter_target(&self) -> (r: Option<Location>)
        ensures
            vfs::opt_view(r) == self@.entering(),
    {
        match self.selected() {
            Some(e) => if e.is_parent {
                self.dir.parent()
            } else if e.is_dir {
                Some(e.loc.clone())
            } else {
                None
            },
            None => None,
        }
    }

    /// Enter the directory (or archive) at the cursor. Entering ".." is going
    /// up: the cursor lands on the directory it came from.
    pub fn enter_dir(&mut self, children: &Vec<DirChild>)
        ensures
            final(self)@ == old(self)@.entered(vfs::child_views(children@)),
            old(self)@.wf() ==> final(self)@.wf(),
    {
        let (up, target): (bool, Option<Location>) = match self.selected() {
            Some(e) => if e.is_parent {
                (true, None)
            } else if e.is_dir {
                (false, Some(e.loc.clone()))
            } else {
                (false, None)
            },
            None => (false, None),
        };
        if up {
            self.go_up(children);
        } else {
            match target {
                Some(l) => {
                    self.set_loc(l, children);
                },
                None => {},
            }
        }
    }

    /// The directory whose children [`Browser::go_up`] lists, if there is one.
    pub fn up_target(&self) -> (r: Option<Location>)
        ensures
            vfs::opt_view(r) == self@.dir.parent(),
    {
        self.dir.parent()
    }

    /// Go one directory up, landing the cursor on the directory just left.
    pub fn go_up(&mut self, children: &Vec<DirChild>)
        ensures
            final(self)@ == old(self)@.above(vfs::child_views(children@)),
            old(self)@.wf() ==> final(self)@.wf(),
    {
        match self.dir.parent() {
            Some(p) => {
                let from = self.dir.clone();
                self.set_loc(p, children);
                self.select_loc(&from);
            },
            None => {},
        }
    }

    pub fn move_down(&mut self, n: usize)
        ensures
            final(self)@ == (BrowserView {
                at: cursor::down(old(self)@.at, n, old(self)@.entries.len() as int),
                ..old(self)@
            }),
            old(self)@.wf() ==> final(self)@.wf(),
    {
        let ghost b = self@;
        let len: usize = self.entries.len();
        self.state.move_down(n, len);
        proof {
            if len > 0 {
                cursor::lemma_moves_stay(b.at, n, len as int);
            }
        }
    }

    pub fn move_up(&mut self, n: usize)
        ensures
            final(self)@ == (BrowserView {
                at: cursor::up(old(self)@.at, n, old(self)@.entries.len() as int),
                ..old(self)@
            }),
            old(self)@.wf() ==> final(self)@.wf(),
    {
        let ghost b = self@;
        let len: usize = self.entries.len();
        self.state.move_up(n, len);
        proof {
            if len > 0 {
                cursor::lemma_moves_stay(b.at, n, len as int);
            }
        }
    }

    pub fn home(&mut self)
        ensures
            final(self)@ == (BrowserView {
                at: cursor::first(old(self)@.at, old(self)@.entries.len() as int),
                ..old(self)@
            }),
            old(self)@.wf() ==> final(self)@.wf(),
    {
        let len: usize = self.entries.len();
        self.state.home(len);
    }

    pub fn end(&mut self)
        ensures
            final(self)@ == (BrowserView {
                at: cursor::last(old(self)@.at, old(self)@.entries.len() as int),
                ..old(self)@
            }),
            old(self)@.wf() ==> final(self)@.wf(),
    {
        let len: usize = self.entries.len();
        self.state.end(len);
    }

    /// The next/previous playable (non-dir) file relative to `loc`, resolved
    /// within `loc`'s own container directory/archive — *not* wherever the
    /// browser is currently pointed. This lets auto-advance keep playing
    /// through the directory of the playing file even after the user has
    /// browsed elsewhere. `children` are those of `loc`'s container. Returns
    /// `None` past the last/first file, or if `loc` is not among the files.
    pub fn neighbour_file(&self, loc: &Location, forward: bool, children: &Vec<DirChild>) -> (r:
        Option<Location>)
        ensures
            vfs::opt_view(r) == neighbour(
                self@.playable(vfs::child_views(children@)),
                loc@,
                forward,
            ),
    {
        if loc.parent().is_none() {
            return None;
        }
        let files = self.list_files(children);
        let ghost fs = entry_views(files@);
        let mut cur: usize = 0;
        while cur < files.len() && files[cur].loc != *loc
            invariant
                cur <= files@.len(),
                fs == entry_views(files@),
                forall|j: int| 0 <= j < cur ==> (#[trigger] fs[j]).loc.key() != loc@.key(),
            decreases files.len() - cur,
        {
            assert(fs[cur as int] == files@[cur as int]@);
            cur = cur + 1;
        }
        proof {
            if cur < files@.len() {
                assert(fs[cur as int] == files@[cur as int]@);
            }
            lemma_find_loc_is(fs, loc@.key(), cur as int);
        }
        if cur == files.len() {
            return None;
        }
        if forward {
            if cur + 1 < files.len() {
                assert(fs[cur + 1] == files@[cur + 1]@);
                Some(files[cur + 1].loc.clone())
            } else {
                None
            }
        } else if cur > 0 {
            assert(fs[cur - 1] == files@[cur - 1]@);
            Some(files[cur - 1].loc.clone())
        } else {
            None
        }
    }

    /// The first playable (non-directory) file in `loc`'s container, if any.
    /// Used to loop back to the start of the playing file's directory.
    pub fn first_file_of(&self, loc: &Location, children: &Vec<DirChild>) -> (r: Option<Location>)
        ensures
            vfs::opt_view(r) == first_file(self@.playable(vfs::child_views(children@)), loc@),
    {
        if loc.parent().is_none() {
            return None;
        }
        let files = self.list_files(children);
        let ghost fs = entry_views(files@);
        if files.len() > 0 {
            assert(fs[0] == files@[0]@);
            Some(files[0].loc.clone())
        } else {
            None
        }
    }

    /// Sorted playable files among `children`, honouring the hidden-file and
    /// extension rules but ignoring any active search filter and the browser's
    /// own cursor/current directory.
    fn list_files(&self, children: &Vec<DirChild>) -> (r: Vec<Entry>)
        ensures
            entry_views(r@) == self@.playable(vfs::child_views(children@)),
    {
        proof {
            let b = self@;
            let f1 = |c: ChildView| b.picks(Pick::Playable, c);
            let f2 = |c: ChildView| b.lists_playable(c);
            assert(f1 =~= f2);
        }
        self.gather(children, Pick::Playable)
    }
}

/// The texts in lower case.
pub open spec fn lowered(v: Seq<Seq<char>>) -> Seq<Seq<char>> {
    v.map_values(|s: Seq<char>| text::lower(s))
}

fn lower_all(v: &Vec<String>) -> (r: Vec<String>)
    ensures
        text::texts(r@) == lowered(text::texts(v@)),
{
    let mut r: Vec<String> = Vec::new();
    let mut i: usize = 0;
    while i < v.len()
        invariant
            i <= v@.len(),
            r@.len() == i,
            forall|k: int| 0 <= k < i ==> (#[trigger] r@[k])@ == text::lower(v@[k]@),
        decreases v.len() - i,
    {
        r.push(to_lower(v[i].as_str()));
        i = i + 1;
    }
    assert(text::texts(r@) =~= lowered(text::texts(v@)));
    r
}

fn count_rows(v: &Vec<Entry>) -> (r: usize)
    ensures
        r == count_items(entry_views(v@)),
{
    let ghost s = entry_views(v@);
    let mut n: usize = 0;
    let mut i: usize = 0;
    assert(s.take(0) =~= seq![]);
    while i < v.len()
        invariant
            i <= v@.len(),
            n <= i,
            s == entry_views(v@),
            n == count_items(s.take(i as int)),
        decreases v.len() - i,
    {
        proof {
            assert(s.take(i + 1).drop_last() =~= s.take(i as int));
            assert(s.take(i + 1).last() == v@[i as int]@);
        }
        if !v[i].is_parent {
            n = n + 1;
        }
        i = i + 1;
    }
    assert(s.take(s.len() as int) =~= s);
    n
}

/// The file after (or before) `loc` among `files`.
pub open spec fn neighbour(files: Seq<EntryView>, loc: LocView, forward: bool) -> Option<LocView> {
    let cur = find_loc(files, loc.key());
    if loc.parent() is None || cur >= files.len() {
        None
    } else if forward {
        if cur + 1 < files.len() {
            Some(files[cur + 1].loc)
        } else {
            None
        }
    } else if cur > 0 {
        Some(files[cur - 1].loc)
    } else {
        None
    }
}

/// The first of `files`.
pub open spec fn first_file(files: Seq<EntryView>, loc: LocView) -> Option<LocView> {
    if loc.parent() is None || files.len() == 0 {
        None
    } else {
        Some(files[0].loc)
    }
}

proof fn lemma_refiltered_wf(b: BrowserView)
    ensures
        b.refiltered().wf(),
{
    let es = b.matching();
    match b.selected() {
        Some(e) => {
            lemma_find_loc(es, e.loc.key());
        },
        None => {},
    }
    let r = b.refiltered();
    assert(r.matching() == es) by {
        if b.filter.len() > 0 {
            let f1 = |e: EntryView| text::has(text::lower(e.name), b.filter);
            let f2 = |e: EntryView| text::has(text::lower(e.name), r.filter);
            assert(f1 =~= f2);
        }
    }
}

} // verus!
