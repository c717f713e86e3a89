//! Virtual filesystem layer.
//!
//! A [`Location`] names something browsable: either a path on disk or a member
//! inside a zip archive. The rest of the library speaks `Location`, so
//! directories and archives are navigated and played through the same code.
//!
//! What is on the disk comes in from outside, as plain values: a [`Disk`] says
//! which paths are there, a list of [`DiskEntry`] what a directory holds, and
//! a list of member names what an archive holds.

use crate::ascii;
use crate::ascii::lower_ascii_text;
use crate::midi::Length;
use crate::paths;
use crate::paths::{file_name_of, join_path, parent_of, same_path};
use crate::raw;
use crate::raw::shown_text;
use crate::text;
use crate::text::{chars_of, ends, find_from, past_last_in, same_text, split_once, string_of, strip_prefix};
use vstd::hash_map::StringHashMap;
use vstd::prelude::*;
use vstd::string::*;

verus! {

// --- what is on the disk ----------------------------------------------------

/// What stands at a path.
#[derive(Clone, Copy, PartialEq, Eq, Structural, Debug)]
pub enum FileKind {
    File,
    Dir,
    /// Something else, such as a socket or a device.
    Other,
}

/// What was found on the disk: each path that is there, as it was looked up,
/// with what it is.
pub struct Disk {
    kinds: StringHashMap<FileKind>,
}

impl View for Disk {
    type V = Map<Seq<char>, FileKind>;

    closed spec fn view(&self) -> Map<Seq<char>, FileKind> {
        self.kinds@
    }
}

/// True when the path `p` is there.
pub open spec fn on_disk(d: Map<Seq<char>, FileKind>, p: Seq<char>) -> bool {
    d.contains_key(p)
}

/// True when the path `p` is there as a file.
pub open spec fn file_on_disk(d: Map<Seq<char>, FileKind>, p: Seq<char>) -> bool {
    d.contains_key(p) && d[p] == FileKind::File
}

/// True when the path `p` is there as a directory.
pub open spec fn dir_on_disk(d: Map<Seq<char>, FileKind>, p: Seq<char>) -> bool {
    d.contains_key(p) && d[p] == FileKind::Dir
}

impl Disk {
    /// A disk with nothing on it.
    pub fn new() -> (r: Disk)
        ensures
            r@ == Map::<Seq<char>, FileKind>::empty(),
    {
        Disk { kinds: StringHashMap::new() }
    }

    /// Say what stands at `path`.
    pub fn put(&mut self, path: String, kind: FileKind)
        ensures
            final(self)@ == old(self)@.insert(path@, kind),
    {
        self.kinds.insert(path, kind);
    }

    pub fn is_present(&self, path: &str) -> (r: bool)
        ensures
            r == on_disk(self@, path@),
    {
        self.kinds.contains_key(path)
    }

    pub fn is_file(&self, path: &str) -> (r: bool)
        ensures
            r == file_on_disk(self@, path@),
    {
        match self.kinds.get(path) {
            Some(k) => *k == FileKind::File,
            None => false,
        }
    }

    pub fn is_dir(&self, path: &str) -> (r: bool)
        ensures
            r == dir_on_disk(self@, path@),
    {
        match self.kinds.get(path) {
            Some(k) => *k == FileKind::Dir,
            None => false,
        }
    }
}

// --- locations --------------------------------------------------------------

/// Where a browsable item lives.
#[derive(Debug)]
pub enum Location {
    /// A path on the real filesystem. Here and below, bytes of a path that are
    /// no text are held as [`crate::raw`] says.
    Fs(String),
    /// A member inside a zip archive. `archive` is the real path of the `.zip`;
    /// `inner` is the slash-separated path within it, with no trailing slash
    /// (an empty string means the archive root).
    Zip { archive: String, inner: String },
}

/// A location as texts.
#[verifier::ext_equal]
pub enum LocView {
    Fs(Seq<char>),
    Zip { archive: Seq<char>, inner: Seq<char> },
}

/// What a location names, whatever the spelling of its path.
#[verifier::ext_equal]
pub enum LocKey {
    Fs(paths::PathKey),
    Zip { archive: paths::PathKey, inner: Seq<char> },
}

impl View for Location {
    type V = LocView;

    open spec fn view(&self) -> LocView {
        match self {
            Location::Fs(p) => LocView::Fs(p@),
            Location::Zip { archive, inner } => LocView::Zip { archive: archive@, inner: inner@ },
        }
    }
}

/// The text of an optional location.
pub open spec fn opt_view(l: Option<Location>) -> Option<LocView> {
    match l {
        Some(x) => Some(x@),
        None => None,
    }
}

/// What an optional location names.
pub open spec fn opt_key(l: Option<LocView>) -> Option<LocKey> {
    match l {
        Some(x) => Some(x.key()),
        None => None,
    }
}

/// The directory that holds the path `p`; the root when nothing does.
pub open spec fn dir_of(p: Seq<char>) -> Seq<char> {
    match paths::parent(p) {
        Some(d) => d,
        None => seq!['/'],
    }
}

/// The name of a path, or all of it when it has none.
pub open spec fn base_name(p: Seq<char>) -> Seq<char> {
    match paths::file_name(p) {
        Some(n) => n,
        None => p,
    }
}

impl LocView {
    pub open spec fn key(self) -> LocKey {
        match self {
            LocView::Fs(p) => LocKey::Fs(paths::key(p)),
            LocView::Zip { archive, inner } => LocKey::Zip { archive: paths::key(archive), inner },
        }
    }

    pub open spec fn parent(self) -> Option<LocView> {
        match self {
            LocView::Fs(p) => match paths::parent(p) {
                Some(d) => Some(LocView::Fs(d)),
                None => None,
            },
            LocView::Zip { archive, inner } => if inner.len() == 0 {
                Some(LocView::Fs(dir_of(archive)))
            } else {
                let k = text::past_last(inner, '/');
                let up = if k > 0 { inner.take(k - 1) } else { seq![] };
                Some(LocView::Zip { archive, inner: up })
            },
        }
    }

    /// The name as the path spells it.
    pub open spec fn raw_name(self) -> Seq<char> {
        match self {
            LocView::Fs(p) => base_name(p),
            LocView::Zip { archive, inner } => if inner.len() == 0 {
                base_name(archive)
            } else {
                inner.skip(text::past_last(inner, '/'))
            },
        }
    }

    /// The name as it is shown.
    pub open spec fn file_name(self) -> Seq<char> {
        if self is Zip && self->inner.len() > 0 {
            self.raw_name()
        } else {
            raw::shown(self.raw_name())
        }
    }

    pub open spec fn display(self) -> Seq<char> {
        match self {
            LocView::Fs(p) => raw::shown(p),
            LocView::Zip { archive, inner } => raw::shown(archive) + seq![':', '/'] + inner,
        }
    }

    pub open spec fn fs_dir(self) -> Seq<char> {
        match self {
            LocView::Fs(p) => p,
            LocView::Zip { archive, inner } => dir_of(archive),
        }
    }

    /// The path on disk that this is, or that holds the archive it is the root
    /// of.
    pub open spec fn on_fs(self) -> Option<Seq<char>> {
        match self {
            LocView::Fs(p) => Some(p),
            LocView::Zip { archive, inner } => if inner.len() == 0 {
                Some(dir_of(archive))
            } else {
                None
            },
        }
    }

    pub open spec fn is_openable_dir(self, disk: Map<Seq<char>, FileKind>) -> bool {
        match self {
            LocView::Fs(p) => dir_on_disk(disk, p),
            LocView::Zip { archive, inner } => file_on_disk(disk, archive),
        }
    }

    pub open spec fn is_present(self, disk: Map<Seq<char>, FileKind>) -> bool {
        match self {
            LocView::Fs(p) => on_disk(disk, p),
            LocView::Zip { archive, inner } => file_on_disk(disk, archive),
        }
    }

    pub open spec fn encode(self) -> Seq<char> {
        match self {
            LocView::Fs(p) => raw::shown(p),
            LocView::Zip { archive, inner } => zip_mark() + raw::shown(archive) + seq!['\t'] + inner,
        }
    }

    /// The location written as `s`.
    pub open spec fn decode(s: Seq<char>) -> LocView {
        match text::without_prefix(s, zip_mark()) {
            Some(rest) => match text::split_at_first(rest, '\t') {
                Some((archive, inner)) => LocView::Zip { archive, inner },
                None => LocView::Zip { archive: rest, inner: seq![] },
            },
            None => LocView::Fs(s),
        }
    }

    /// True when the written form can be told apart again: a path must be text
    /// throughout, one on disk must not look like an archive member, nor an
    /// archive's path hold a tab.
    pub open spec fn encodable(self) -> bool {
        match self {
            LocView::Fs(p) => raw::is_text(p) && !text::starts_with(p, zip_mark()),
            LocView::Zip { archive, inner } => raw::is_text(archive) && !archive.contains('\t'),
        }
    }
}

/// What the written form of an archive member starts with.
pub open spec fn zip_mark() -> Seq<char> {
    seq!['z', 'i', 'p', '\t']
}

/// Reading a written location gives the location back.
pub proof fn lemma_decode_encode(l: LocView)
    requires
        l.encodable(),
    ensures
        LocView::decode(l.encode()) == l,
{
    match l {
        LocView::Fs(p) => {},
        LocView::Zip { archive, inner } => {
            let s = l.encode();
            assert(s.take(4) =~= zip_mark());
            let rest = s.skip(4);
            assert(rest =~= archive + seq!['\t'] + inner);
            let n = archive.len() as int;
            assert forall|i: int| 0 <= i < n implies rest[i] != '\t' by {
                assert(rest[i] == archive[i]);
                assert(archive.contains(archive[i]));
            }
            text::lemma_find_is(rest, '\t', n);
            assert(rest.take(n) =~= archive);
            assert(rest.skip(n + 1) =~= inner);
        },
    }
}

/// Leaving an archive's root leads to the directory that holds the archive,
/// and leaving any other member stays in the archive.
pub proof fn lemma_parent_of_member(l: LocView)
    requires
        l is Zip,
    ensures
        l->inner.len() == 0 ==> l.parent() == Some(LocView::Fs(dir_of(l->archive))),
        l->inner.len() > 0 ==> (l.parent() matches Some(LocView::Zip { archive, inner })
            && archive == l->archive && inner.len() < l->inner.len()),
{
    text::lemma_past_last(l->inner, '/');
}

/// Two spellings of a location have the same parent.
pub proof fn lemma_same_parent(a: LocView, b: LocView)
    requires
        a.key() == b.key(),
    ensures
        opt_key(a.parent()) == opt_key(b.parent()),
{
    match (a, b) {
        (LocView::Fs(p), LocView::Fs(q)) => {
            paths::lemma_parent(p);
            paths::lemma_parent(q);
        },
        (LocView::Zip { archive: p, .. }, LocView::Zip { archive: q, .. }) => {
            paths::lemma_parent(p);
            paths::lemma_parent(q);
        },
        _ => {},
    }
}

/// The name of a path is that of any spelling of it.
proof fn lemma_base_name(p: Seq<char>, q: Seq<char>)
    requires
        paths::key(p) == paths::key(q),
        paths::is_name(base_name(p)),
    ensures
        base_name(p) == base_name(q),
{
    paths::lemma_file_name(p);
    paths::lemma_file_name(q);
    if paths::file_name(p) is None {
        paths::lemma_one_seg(p, true);
    }
}

/// Two spellings of a location have the same name.
pub proof fn lemma_same_name(a: LocView, b: LocView)
    requires
        a.key() == b.key(),
        paths::is_name(a.raw_name()),
    ensures
        a.raw_name() == b.raw_name(),
        a.file_name() == b.file_name(),
{
    match (a, b) {
        (LocView::Fs(p), LocView::Fs(q)) => lemma_base_name(p, q),
        (LocView::Zip { archive: p, inner }, LocView::Zip { archive: q, .. }) => {
            if inner.len() == 0 {
                lemma_base_name(p, q);
            }
        },
        _ => {},
    }
}

impl Clone for Location {
    fn clone(&self) -> (r: Self)
        ensures
            r == *self,
    {
        match self {
            Location::Fs(p) => Location::Fs(p.clone()),
            Location::Zip { archive, inner } => Location::Zip {
                archive: archive.clone(),
                inner: inner.clone(),
            },
        }
    }
}

impl PartialEq for Location {
    fn eq(&self, other: &Self) -> (r: bool) {
        match (self, other) {
            (Location::Fs(a), Location::Fs(b)) => same_path(a.as_str(), b.as_str()),
            (
                Location::Zip { archive: a, inner: x },
                Location::Zip { archive: b, inner: y },
            ) => same_path(a.as_str(), b.as_str()) && same_text(x.as_str(), y.as_str()),
            _ => false,
        }
    }
}

impl vstd::std_specs::cmp::PartialEqSpecImpl for Location {
    open spec fn obeys_eq_spec() -> bool {
        true
    }

    open spec fn eq_spec(&self, other: &Self) -> bool {
        self@.key() == other@.key()
    }
}

impl Eq for Location {

}

fn dir_text(p: &str) -> (r: String)
    ensures
        r@ == dir_of(p@),
{
    match parent_of(p) {
        Some(d) => d,
        None => {
            let mut r = String::new();
            r.push('/');
            r
        },
    }
}

fn base_name_text(p: &str) -> (r: String)
    ensures
        r@ == base_name(p@),
{
    match file_name_of(p) {
        Some(n) => n,
        None => p.to_owned(),
    }
}

impl Location {
    /// The parent container of this location, if any. Leaving a zip's root
    /// returns to the filesystem directory that holds the archive.
    pub fn parent(&self) -> (r: Option<Location>)
        ensures
            opt_view(r) == self@.parent(),
    {
        match self {
            Location::Fs(p) => match parent_of(p.as_str()) {
                Some(d) => Some(Location::Fs(d)),
                None => None,
            },
            Location::Zip { archive, inner } => {
                let cs = chars_of(inner.as_str());
                if cs.len() == 0 {
                    return Some(Location::Fs(dir_text(archive.as_str())));
                }
                let k = past_last_in(&cs, '/');
                let up = if k > 0 {
                    string_of(&cs, 0, k - 1)
                } else {
                    String::new()
                };
                proof {
                    assert(k > 0 ==> up@ =~= inner@.take(k - 1));
                    assert(k == 0 ==> up@ =~= seq![]);
                }
                Some(Location::Zip { archive: archive.clone(), inner: up })
            },
        }
    }

    /// The display basename: the file/dir name for the player and list rows.
    pub fn file_name(&self) -> (r: String)
        ensures
            r@ == self@.file_name(),
    {
        match self {
            Location::Fs(p) => {
                let name = base_name_text(p.as_str());
                shown_text(name.as_str())
            },
            Location::Zip { archive, inner } => {
                let cs = chars_of(inner.as_str());
                if cs.len() == 0 {
                    let name = base_name_text(archive.as_str());
                    return shown_text(name.as_str());
                }
                let k = past_last_in(&cs, '/');
                let r = string_of(&cs, k, cs.len());
                assert(r@ =~= inner@.skip(k as int));
                r
            },
        }
    }

    /// A human-readable path for panel titles and prompts:
    /// "/music/sf.zip:/banks" reads as "inside this archive".
    pub fn display(&self) -> (r: String)
        ensures
            r@ == self@.display(),
    {
        match self {
            Location::Fs(p) => shown_text(p.as_str()),
            Location::Zip { archive, inner } => {
                let mut r = shown_text(archive.as_str());
                r.push(':');
                r.push('/');
                r.append(inner.as_str());
                assert(r@ =~= self@.display());
                r
            },
        }
    }

    /// The real filesystem path this location maps to, if it is on disk. The
    /// root of an archive falls back to the directory that holds the archive.
    /// Further inside, a member and a directory are not told apart by their
    /// names: both are taken for a member, which is not on disk, and give
    /// `None`. [`Location::fs_dir`] falls back for either.
    pub fn as_fs(&self) -> (r: Option<String>)
        ensures
            match self@.on_fs() {
                Some(p) => r matches Some(x) && x@ == p,
                None => r is None,
            },
    {
        match self {
            Location::Fs(p) => Some(p.clone()),
            Location::Zip { inner, .. } => if inner.as_str().is_empty() {
                Some(self.fs_dir())
            } else {
                None
            },
        }
    }

    /// The nearest enclosing filesystem directory, always resolvable: the path
    /// itself for an `Fs` dir, or the directory holding the archive otherwise.
    pub fn fs_dir(&self) -> (r: String)
        ensures
            r@ == self@.fs_dir(),
    {
        match self {
            Location::Fs(p) => p.clone(),
            Location::Zip { archive, .. } => dir_text(archive.as_str()),
        }
    }

    /// True if this location can be opened as a directory: the filesystem
    /// directory exists, or (for an archive) the `.zip` file exists.
    pub fn is_openable_dir(&self, disk: &Disk) -> (r: bool)
        ensures
            r == self@.is_openable_dir(disk@),
    {
        match self {
            Location::Fs(p) => disk.is_dir(p.as_str()),
            Location::Zip { archive, .. } => disk.is_file(archive.as_str()),
        }
    }

    /// True if the backing file is present. An archive member is assumed
    /// present when its archive exists; the member itself is verified only
    /// when read.
    pub fn is_present(&self, disk: &Disk) -> (r: bool)
        ensures
            r == self@.is_present(disk@),
    {
        match self {
            Location::Fs(p) => disk.is_present(p.as_str()),
            Location::Zip { archive, .. } => disk.is_file(archive.as_str()),
        }
    }

    /// The path on disk that decides whether this location is there.
    pub fn disk_path(&self) -> (r: String)
        ensures
            r@ == (match self@ {
                LocView::Fs(p) => p,
                LocView::Zip { archive, inner } => archive,
            }),
    {
        match self {
            Location::Fs(p) => p.clone(),
            Location::Zip { archive, .. } => archive.clone(),
        }
    }

    /// Serialise to a single line for the session file. Filesystem paths are
    /// written verbatim; a zip location uses a tab-delimited
    /// `zip<TAB>archive<TAB>inner` form.
    pub fn encode(&self) -> (r: String)
        ensures
            r@ == self@.encode(),
    {
        match self {
            Location::Fs(p) => shown_text(p.as_str()),
            Location::Zip { archive, inner } => {
                let mut r = "zip\t".to_owned();
                proof {
                    reveal_strlit("zip\t");
                    assert(r@ =~= zip_mark());
                }
                let shown = shown_text(archive.as_str());
                r.append(shown.as_str());
                r.push('\t');
                r.append(inner.as_str());
                assert(r@ =~= self@.encode());
                r
            },
        }
    }

    /// Inverse of [`Location::encode`]. Anything without the `zip<TAB>` marker
    /// is read as a filesystem path.
    pub fn decode(s: &str) -> (r: Location)
        ensures
            r@ == LocView::decode(s@),
    {
        proof {
            reveal_strlit("zip\t");
            assert("zip\t"@ =~= zip_mark());
        }
        match strip_prefix(s, "zip\t") {
            Some(rest) => match split_once(rest.as_str(), '\t') {
                Some((archive, inner)) => Location::Zip { archive, inner },
                None => {
                    let inner = String::new();
                    assert(inner@ =~= seq![]);
                    Location::Zip { archive: rest, inner }
                },
            },
            None => Location::Fs(s.to_owned()),
        }
    }
}

/// A copy of an optional location.
pub fn clone_loc(l: &Option<Location>) -> (r: Option<Location>)
    ensures
        r == *l,
{
    match l {
        Some(x) => Some(x.clone()),
        None => None,
    }
}

/// True when the two options name the same location, or neither names one.
pub fn same_opt(a: &Option<Location>, b: &Option<Location>) -> (r: bool)
    ensures
        r == (opt_key(opt_view(*a)) == opt_key(opt_view(*b))),
{
    match (a, b) {
        (Some(x), Some(y)) => x == y,
        (None, None) => true,
        _ => false,
    }
}

// --- directory listings -----------------------------------------------------

/// One entry of a directory on disk.
pub struct DiskEntry {
    /// Its name, spelled as in a path.
    pub name: String,
    pub is_dir: bool,
    /// Size in bytes; 0 when it could not be read.
    pub size: u64,
    /// Length of a MIDI file, when it was parsed.
    pub length: Option<Length>,
}

/// One immediate child of a directory location, before file-type filtering.
pub struct DirChild {
    /// Its name, as it is shown.
    pub name: String,
    pub loc: Location,
    pub is_dir: bool,
    /// Size in bytes: of a file, or of the archive shown as a directory; 0 for
    /// plain directories and for archive members (whose size is not read
    /// during indexing).
    pub size: u64,
    /// Length of a MIDI file on disk, when it was parsed.
    pub length: Option<Length>,
}

/// A child of a directory, as texts and numbers.
#[verifier::ext_equal]
pub struct ChildView {
    pub name: Seq<char>,
    pub loc: LocView,
    pub is_dir: bool,
    pub size: u64,
    pub length: Option<Length>,
}

impl View for DirChild {
    type V = ChildView;

    open spec fn view(&self) -> ChildView {
        ChildView {
            name: self.name@,
            loc: self.loc@,
            is_dir: self.is_dir,
            size: self.size,
            length: self.length,
        }
    }
}

/// The children in a list.
pub open spec fn child_views(v: Seq<DirChild>) -> Seq<ChildView> {
    v.map_values(|c: DirChild| c@)
}

/// True if a filesystem file should be presented as an enterable directory.
pub open spec fn archive_name(name: Seq<char>) -> bool {
    text::ends_with(ascii::lower_ascii(name), seq!['.', 'z', 'i', 'p'])
}

pub fn is_archive(name: &str) -> (r: bool)
    ensures
        r == archive_name(name@),
{
    let low = lower_ascii_text(name);
    proof {
        reveal_strlit(".zip");
        assert(".zip"@ =~= seq!['.', 'z', 'i', 'p']);
    }
    ends(low.as_str(), ".zip")
}

impl ChildView {
    /// True for a child that names something in the directory `dir`.
    pub open spec fn is_in(self, dir: LocView) -> bool {
        &&& self.loc.parent() matches Some(d) && d.key() == dir.key()
        &&& self.loc.file_name() == self.name
    }
}

/// How an entry of the directory `dir` is listed: a directory as such, an archive (with
/// `allow_archives`) as a directory that carries its file size and whose
/// location is the archive root, and anything else as a file.
pub open spec fn child_of(e: DiskEntry, dir: Seq<char>, allow_archives: bool) -> ChildView {
    if e.is_dir {
        ChildView {
            name: raw::shown(e.name@),
            loc: LocView::Fs(paths::join(dir, e.name@)),
            is_dir: true,
            size: 0,
            length: None,
        }
    } else if allow_archives && archive_name(raw::shown(e.name@)) {
        ChildView {
            name: raw::shown(e.name@),
            loc: LocView::Zip { archive: paths::join(dir, e.name@), inner: seq![] },
            is_dir: true,
            size: e.size,
            length: None,
        }
    } else {
        ChildView {
            name: raw::shown(e.name@),
            loc: LocView::Fs(paths::join(dir, e.name@)),
            is_dir: false,
            size: e.size,
            length: e.length,
        }
    }
}

/// The children of a directory on disk.
pub open spec fn fs_children(
    v: Seq<DiskEntry>,
    dir: Seq<char>,
    allow_archives: bool,
) -> Seq<ChildView> {
    v.map_values(|e: DiskEntry| child_of(e, dir, allow_archives))
}

/// Whether archives are entered or not, a directory lists the same names,
/// hidden ones among them, in the same order. A name is listed differently only
/// where it ends in `.zip` and is no directory: as a directory whose location is
/// the archive's root, or as an ordinary file.
pub proof fn lemma_archives_listed(v: Seq<DiskEntry>, dir: Seq<char>, i: int)
    requires
        0 <= i < v.len(),
    ensures
        fs_children(v, dir, true).len() == v.len(),
        fs_children(v, dir, false).len() == v.len(),
        ({
            let a = fs_children(v, dir, true)[i];
            let b = fs_children(v, dir, false)[i];
            let path = paths::join(dir, v[i].name@);
            &&& a.name == raw::shown(v[i].name@) && b.name == raw::shown(v[i].name@)
            &&& a != b <==> archive_name(raw::shown(v[i].name@)) && !v[i].is_dir
            &&& a != b ==> a.is_dir && a.loc == (LocView::Zip { archive: path, inner: seq![] })
                && !b.is_dir && b.loc == LocView::Fs(path) && a.size == b.size
        }),
{
}

/// A child of a directory on disk names something in it.
proof fn lemma_child_is_in(e: DiskEntry, dir: Seq<char>, allow_archives: bool)
    requires
        paths::is_name(e.name@),
    ensures
        child_of(e, dir, allow_archives).is_in(LocView::Fs(dir)),
        child_of(e, dir, allow_archives).loc.raw_name() == e.name@,
{
    paths::lemma_join_name(dir, e.name@);
}

fn read_dir_fs(entries: &Vec<DiskEntry>, dir: &str, allow_archives: bool) -> (r: Vec<DirChild>)
    ensures
        child_views(r@) == fs_children(entries@, dir@, allow_archives),
{
    let mut out: Vec<DirChild> = Vec::new();
    let mut i: usize = 0;
    while i < entries.len()
        invariant
            i <= entries@.len(),
            out@.len() == i,
            forall|k: int|
                0 <= k < i ==> (#[trigger] out@[k])@ == child_of(
                    entries@[k],
                    dir@,
                    allow_archives,
                ),
        decreases entries.len() - i,
    {
        let e = &entries[i];
        let name = shown_text(e.name.as_str());
        let path = join_path(dir, e.name.as_str());
        if e.is_dir {
            out.push(
                DirChild {
                    name,
                    loc: Location::Fs(path),
                    is_dir: true,
                    size: 0,
                    length: None,
                },
            );
        } else if allow_archives && is_archive(name.as_str()) {
            let inner = String::new();
            assert(inner@ =~= seq![]);
            out.push(
                DirChild {
                    name,
                    loc: Location::Zip { archive: path, inner },
                    is_dir: true,
                    size: entries[i].size,
                    length: None,
                },
            );
        } else {
            out.push(
                DirChild {
                    name,
                    loc: Location::Fs(path),
                    is_dir: false,
                    size: e.size,
                    length: e.length,
                },
            );
        }
        i = i + 1;
    }
    assert(child_views(out@) =~= fs_children(entries@, dir@, allow_archives));
    out
}

// --- archives ---------------------------------------------------------------

/// One thing that a member of an archive shows: that the directory `dir` (`""`
/// for the root, otherwise ending in `/`) holds `name`, as a directory or not.
#[verifier::ext_equal]
pub struct ZipFact {
    pub dir: Seq<char>,
    pub name: Seq<char>,
    pub is_dir: bool,
}

/// `s` without slashes at its end.
pub open spec fn trim_slashes(s: Seq<char>) -> Seq<char>
    decreases s.len(),
{
    if s.len() > 0 && s.last() == '/' {
        trim_slashes(s.drop_last())
    } else {
        s
    }
}

/// What the member named `s` shows when `dir` has been gone into, `marker`
/// being whether the member is a directory itself.
pub open spec fn path_facts(dir: Seq<char>, s: Seq<char>, marker: bool) -> Seq<ZipFact>
    decreases s.len(),
    via path_facts_decreases
{
    let k = text::find(s, '/');
    if k < s.len() {
        seq![ZipFact { dir, name: s.take(k), is_dir: true }] + path_facts(
            dir + s.take(k + 1),
            s.skip(k + 1),
            marker,
        )
    } else {
        seq![ZipFact { dir, name: s, is_dir: marker }]
    }
}

#[via_fn]
proof fn path_facts_decreases(dir: Seq<char>, s: Seq<char>, marker: bool) {
    text::lemma_find(s, '/');
}

/// What one member of an archive shows: each directory on its path holds the
/// next one, and the last the member. A name of slashes alone shows nothing.
pub open spec fn member_facts(name: Seq<char>) -> Seq<ZipFact> {
    let t = trim_slashes(name);
    if t.len() == 0 {
        seq![]
    } else {
        path_facts(seq![], t, name.last() == '/')
    }
}

/// What the members of an archive show together.
pub open spec fn zip_facts(names: Seq<Seq<char>>) -> Seq<ZipFact>
    decreases names.len(),
{
    if names.len() == 0 {
        seq![]
    } else {
        zip_facts(names.drop_last()) + member_facts(names.last())
    }
}

/// True when the facts show that `dir` holds `name`.
pub open spec fn zip_holds(facts: Seq<ZipFact>, dir: Seq<char>, name: Seq<char>) -> bool {
    exists|i: int| 0 <= i < facts.len() && (#[trigger] facts[i]).dir == dir && facts[i].name == name
}

/// True when the facts show that `name` in `dir` is a directory.
pub open spec fn zip_is_dir(facts: Seq<ZipFact>, dir: Seq<char>, name: Seq<char>) -> bool {
    exists|i: int|
        0 <= i < facts.len() && (#[trigger] facts[i]).dir == dir && facts[i].name == name
            && facts[i].is_dir
}

/// What a path shows: its last component in its directory, and each directory
/// on it as one.
proof fn lemma_path_facts(dir: Seq<char>, s: Seq<char>, marker: bool, j: int)
    requires
        j < s.len(),
        j >= 0 ==> s[j] == '/',
    ensures
        ({
            let k = text::past_last(s, '/');
            path_facts(dir, s, marker).contains(
                ZipFact { dir: dir + s.take(k), name: s.skip(k), is_dir: marker },
            )
        }),
        j >= 0 ==> ({
            let k = text::past_last(s.take(j), '/');
            path_facts(dir, s, marker).contains(
                ZipFact { dir: dir + s.take(k), name: s.subrange(k, j), is_dir: true },
            )
        }),
    decreases s.len(),
{
    let f = text::find(s, '/');
    text::lemma_find(s, '/');
    let v = path_facts(dir, s, marker);
    let k = text::past_last(s, '/');
    text::lemma_past_last(s, '/');
    if f < s.len() {
        let here = ZipFact { dir, name: s.take(f), is_dir: true };
        let d = dir + s.take(f + 1);
        let rest = s.skip(f + 1);
        let w = path_facts(d, rest, marker);
        assert(v == seq![here] + w);
        let j2 = j - f - 1;
        lemma_path_facts(d, rest, marker, if j > f { j2 } else { -1 });
        let k2 = text::past_last(rest, '/');
        text::lemma_past_last(rest, '/');
        assert forall|i: int| f + 1 + k2 <= i < s.len() implies s[i] != '/' by {
            assert(s[i] == rest[i - f - 1]);
        }
        text::lemma_past_last_is(s, '/', f + 1 + k2);
        let x = ZipFact { dir: d + rest.take(k2), name: rest.skip(k2), is_dir: marker };
        assert(d + rest.take(k2) =~= dir + s.take(k));
        assert(rest.skip(k2) =~= s.skip(k));
        let a = choose|a: int| 0 <= a < w.len() && w[a] == x;
        assert(v[a + 1] == x);
        if j >= 0 {
            let p = s.take(j);
            let m = text::past_last(p, '/');
            text::lemma_past_last(p, '/');
            if j == f {
                text::lemma_past_last_is(p, '/', 0);
                assert(dir + s.take(0) =~= dir);
                assert(s.subrange(0, j) =~= s.take(f));
                assert(v[0] == here);
            } else {
                assert(j > f) by {
                    if j < f {
                        assert(s[j] != '/');
                    }
                }
                let p2 = rest.take(j2);
                let m2 = text::past_last(p2, '/');
                text::lemma_past_last(p2, '/');
                assert forall|i: int| f + 1 + m2 <= i < p.len() implies p[i] != '/' by {
                    assert(p[i] == p2[i - f - 1]);
                }
                text::lemma_past_last_is(p, '/', f + 1 + m2);
                let y = ZipFact { dir: d + rest.take(m2), name: rest.subrange(m2, j2), is_dir: true };
                assert(d + rest.take(m2) =~= dir + s.take(m));
                assert(rest.subrange(m2, j2) =~= s.subrange(m, j));
                let b = choose|b: int| 0 <= b < w.len() && w[b] == y;
                assert(v[b + 1] == y);
            }
        }
    } else {
        text::lemma_past_last_is(s, '/', 0);
        assert(dir + s.take(0) =~= dir);
        assert(s.skip(0) =~= s);
        assert(v[0] == ZipFact { dir, name: s, is_dir: marker });
    }
}

proof fn lemma_zip_facts(names: Seq<Seq<char>>, i: int, f: ZipFact)
    requires
        0 <= i < names.len(),
        member_facts(names[i]).contains(f),
    ensures
        zip_facts(names).contains(f),
    decreases names.len(),
{
    let front = zip_facts(names.drop_last());
    let last = member_facts(names.last());
    let all = zip_facts(names);
    if i == names.len() - 1 {
        let a = choose|a: int| 0 <= a < last.len() && last[a] == f;
        assert(all[front.len() + a] == f);
    } else {
        assert(names.drop_last()[i] == names[i]);
        lemma_zip_facts(names.drop_last(), i, f);
        let a = choose|a: int| 0 <= a < front.len() && front[a] == f;
        assert(all[a] == f);
    }
}

/// Every member of an archive is listed in its directory, and every directory on
/// its path is listed as one, whether or not the archive has an entry for it:
/// `j` is where a slash ends the path of such a directory.
pub proof fn lemma_members_are_listed(names: Seq<Seq<char>>, i: int, j: int)
    requires
        0 <= i < names.len(),
        j < trim_slashes(names[i]).len(),
        trim_slashes(names[i]).len() > 0,
        j >= 0 ==> trim_slashes(names[i])[j] == '/',
    ensures
        ({
            let t = trim_slashes(names[i]);
            let k = text::past_last(t, '/');
            &&& zip_holds(zip_facts(names), t.take(k), t.skip(k))
            &&& names[i].last() == '/' ==> zip_is_dir(zip_facts(names), t.take(k), t.skip(k))
        }),
        j >= 0 ==> ({
            let t = trim_slashes(names[i]);
            let k = text::past_last(t.take(j), '/');
            zip_is_dir(zip_facts(names), t.take(k), t.subrange(k, j))
        }),
{
    let t = trim_slashes(names[i]);
    let marker = names[i].last() == '/';
    let none = Seq::<char>::empty();
    lemma_path_facts(none, t, marker, j);
    let k = text::past_last(t, '/');
    let x = ZipFact { dir: none + t.take(k), name: t.skip(k), is_dir: marker };
    assert(none + t.take(k) =~= t.take(k));
    assert(member_facts(names[i]) == path_facts(none, t, marker));
    lemma_zip_facts(names, i, x);
    let all = zip_facts(names);
    let a = choose|a: int| 0 <= a < all.len() && all[a] == x;
    assert(all[a].dir == t.take(k));
    if j >= 0 {
        let m = text::past_last(t.take(j), '/');
        let y = ZipFact { dir: none + t.take(m), name: t.subrange(m, j), is_dir: true };
        assert(none + t.take(m) =~= t.take(m));
        lemma_zip_facts(names, i, y);
        let b = choose|b: int| 0 <= b < all.len() && all[b] == y;
        assert(all[b].dir == t.take(m));
    }
}

/// A directory of an archive and one name in it.
struct ZipNode {
    dir: String,
    name: String,
    is_dir: bool,
}

/// A directory tree distilled from a zip's flat member list. Built once per
/// archive from the member names alone; member sizes are not read.
pub struct ZipIndex {
    nodes: Vec<ZipNode>,
    /// Where the node of each path is in `nodes`.
    at: StringHashMap<usize>,
    facts: Ghost<Seq<ZipFact>>,
}

impl ZipIndex {
    /// What the index was built from.
    pub closed spec fn facts(&self) -> Seq<ZipFact> {
        self.facts@
    }

    /// Every node is shown by a fact, every fact has a node, and no path has
    /// two.
    pub closed spec fn wf(&self) -> bool {
        &&& forall|k: int|
            0 <= k < self.nodes@.len() ==> {
                let n = #[trigger] self.nodes@[k];
                &&& zip_holds(self.facts@, n.dir@, n.name@)
                &&& n.is_dir == zip_is_dir(self.facts@, n.dir@, n.name@)
                &&& !n.name@.contains('/')
                &&& n.dir@.len() == 0 || n.dir@.last() == '/'
                &&& self.at@.contains_key(n.dir@ + n.name@)
                &&& self.at@[n.dir@ + n.name@] == k
            }
        &&& forall|p: Seq<char>| #[trigger]
            self.at@.contains_key(p) ==> self.at@[p] < self.nodes@.len()
                && self.nodes@[self.at@[p] as int].dir@ + self.nodes@[self.at@[p] as int].name@ == p
        &&& forall|i: int|
            0 <= i < self.facts@.len() ==> {
                let f = #[trigger] self.facts@[i];
                self.at@.contains_key(f.dir + f.name) && !f.name.contains('/') && (f.dir.len() == 0
                    || f.dir.last() == '/')
            }
    }

    fn empty() -> (r: ZipIndex)
        ensures
            r.wf(),
            r.facts() == Seq::<ZipFact>::empty(),
    {
        ZipIndex { nodes: Vec::new(), at: StringHashMap::new(), facts: Ghost(Seq::empty()) }
    }
}

/// A directory and a name in it can be told apart in their path.
proof fn lemma_dir_and_name(d: Seq<char>, n: Seq<char>, d2: Seq<char>, n2: Seq<char>)
    requires
        d + n == d2 + n2,
        !n.contains('/'),
        !n2.contains('/'),
        d.len() == 0 || d.last() == '/',
        d2.len() == 0 || d2.last() == '/',
    ensures
        d == d2 && n == n2,
{
    let p = d + n;
    assert(text::past_last(p, '/') == d.len()) by {
        assert forall|i: int| d.len() <= i < p.len() implies p[i] != '/' by {
            assert(p[i] == n[i - d.len()]);
            assert(n.contains(n[i - d.len()]));
        }
        text::lemma_past_last_is(p, '/', d.len() as int);
    }
    assert(text::past_last(p, '/') == d2.len()) by {
        assert forall|i: int| d2.len() <= i < p.len() implies p[i] != '/' by {
            assert(p[i] == n2[i - d2.len()]);
            assert(n2.contains(n2[i - d2.len()]));
        }
        text::lemma_past_last_is(p, '/', d2.len() as int);
    }
    assert(d =~= p.take(d.len() as int));
    assert(d2 =~= p.take(d2.len() as int));
    assert(n =~= p.skip(d.len() as int));
    assert(n2 =~= p.skip(d2.len() as int));
}

/// A further fact changes what is known of its own directory and name only.
proof fn lemma_zip_push(facts: Seq<ZipFact>, f: ZipFact, dir: Seq<char>, name: Seq<char>)
    ensures
        zip_holds(facts.push(f), dir, name) == (zip_holds(facts, dir, name) || (f.dir == dir
            && f.name == name)),
        zip_is_dir(facts.push(f), dir, name) == (zip_is_dir(facts, dir, name) || (f.dir == dir
            && f.name == name && f.is_dir)),
{
    let g = facts.push(f);
    assert(g[facts.len() as int] == f);
    if zip_holds(facts, dir, name) {
        let i = choose|i: int|
            0 <= i < facts.len() && (#[trigger] facts[i]).dir == dir && facts[i].name == name;
        assert(g[i] == facts[i]);
    }
    if zip_is_dir(facts, dir, name) {
        let i = choose|i: int|
            0 <= i < facts.len() && (#[trigger] facts[i]).dir == dir && facts[i].name == name
                && facts[i].is_dir;
        assert(g[i] == facts[i]);
    }
    if zip_holds(g, dir, name) {
        let i = choose|i: int|
            0 <= i < g.len() && (#[trigger] g[i]).dir == dir && g[i].name == name;
        if i < facts.len() {
            assert(g[i] == facts[i]);
        }
    }
    if zip_is_dir(g, dir, name) {
        let i = choose|i: int|
            0 <= i < g.len() && (#[trigger] g[i]).dir == dir && g[i].name == name && g[i].is_dir;
        if i < facts.len() {
            assert(g[i] == facts[i]);
        }
    }
}

impl ZipIndex {
    /// Take in one fact.
    fn learn(&mut self, dir: String, name: String, is_dir: bool)
        requires
            old(self).wf(),
            !name@.contains('/'),
            dir@.len() == 0 || dir@.last() == '/',
        ensures
            final(self).wf(),
            final(self).facts() == old(self).facts().push(ZipFact { dir: dir@, name: name@, is_dir }),
    {
        let ghost f = ZipFact { dir: dir@, name: name@, is_dir };
        let ghost before = self.facts@;
        let ghost nodes = self.nodes@;
        let ghost at = self.at@;
        let mut path = dir.clone();
        path.append(name.as_str());
        let found: Option<usize> = match self.at.get(path.as_str()) {
            Some(k) => Some(*k),
            None => None,
        };
        proof {
            assert forall|k: int| 0 <= k < nodes.len() implies {
                let n = #[trigger] nodes[k];
                &&& zip_holds(before.push(f), n.dir@, n.name@)
                &&& n.dir@ + n.name@ != path@ ==> zip_is_dir(before.push(f), n.dir@, n.name@)
                    == n.is_dir
                &&& n.dir@ + n.name@ == path@ ==> zip_is_dir(before.push(f), n.dir@, n.name@) == (
                n.is_dir || is_dir)
            } by {
                let n = nodes[k];
                lemma_zip_push(before, f, n.dir@, n.name@);
                if n.dir@ + n.name@ == path@ {
                    lemma_dir_and_name(n.dir@, n.name@, dir@, name@);
                }
            }
            lemma_zip_push(before, f, dir@, name@);
        }
        match found {
            Some(k) => {
                if is_dir && !self.nodes[k].is_dir {
                    let node = ZipNode { dir, name, is_dir: true };
                    self.nodes.set(k, node);
                }
                proof {
                    self.facts@ = before.push(f);
                    assert(nodes[k as int].dir@ + nodes[k as int].name@ == path@);
                    lemma_dir_and_name(nodes[k as int].dir@, nodes[k as int].name@, dir@, name@);
                    assert forall|j: int| 0 <= j < self.nodes@.len() implies {
                        let n = #[trigger] self.nodes@[j];
                        &&& n.dir@ == nodes[j].dir@
                        &&& n.name@ == nodes[j].name@
                        &&& j != k ==> n == nodes[j]
                        &&& j == k ==> n.is_dir == (nodes[j].is_dir || is_dir)
                    } by {}
                    assert forall|j: int| 0 <= j < nodes.len() && j != k implies (
                    #[trigger] nodes[j]).dir@ + nodes[j].name@ != path@ by {
                        assert(at[nodes[j].dir@ + nodes[j].name@] == j);
                    }
                }
            },
            None => {
                let k: usize = self.nodes.len();
                self.nodes.push(ZipNode { dir, name, is_dir });
                self.at.insert(path, k);
                proof {
                    self.facts@ = before.push(f);
                    assert forall|j: int| 0 <= j < nodes.len() implies (#[trigger] nodes[j]).dir@
                        + nodes[j].name@ != path@ by {
                        assert(at.contains_key(nodes[j].dir@ + nodes[j].name@));
                    }
                    assert(!zip_is_dir(before, dir@, name@)) by {
                        if zip_is_dir(before, dir@, name@) {
                            let i = choose|i: int|
                                0 <= i < before.len() && (#[trigger] before[i]).dir == dir@
                                    && before[i].name == name@ && before[i].is_dir;
                            assert(at.contains_key(before[i].dir + before[i].name));
                        }
                    }
                    assert(self.nodes@[k as int].dir@ == dir@);
                }
            },
        }
    }
}

/// Looking into a name with no slash left.
proof fn lemma_no_slash(s: Seq<char>)
    requires
        text::find(s, '/') >= s.len(),
    ensures
        !s.contains('/'),
{
    text::lemma_find(s, '/');
}

/// The part before the first slash has none.
proof fn lemma_first_part(s: Seq<char>)
    ensures
        !s.take(text::find(s, '/')).contains('/'),
        0 <= text::find(s, '/') <= s.len(),
        text::find(s, '/') < s.len() ==> s[text::find(s, '/')] == '/',
{
    text::lemma_find(s, '/');
    let t = s.take(text::find(s, '/'));
    if t.contains('/') {
        let i = choose|i: int| 0 <= i < t.len() && t[i] == '/';
        assert(s[i] == '/');
    }
}

impl ZipIndex {
    /// Take in what one member shows.
    fn learn_member(&mut self, name: &str)
        requires
            old(self).wf(),
        ensures
            final(self).wf(),
            final(self).facts() == old(self).facts() + member_facts(name@),
    {
        let cs = chars_of(name);
        let ghost before = self.facts();
        let mut n: usize = cs.len();
        assert(cs@.take(n as int) =~= cs@);
        while n > 0 && cs[n - 1] == '/'
            invariant
                n <= cs@.len(),
                trim_slashes(cs@.take(n as int)) == trim_slashes(cs@),
            decreases n,
        {
            assert(cs@.take(n as int).drop_last() =~= cs@.take(n - 1));
            n = n - 1;
        }
        let ghost t = cs@.take(n as int);
        assert(trim_slashes(cs@) == t);
        if n == 0 {
            assert(before + Seq::<ZipFact>::empty() =~= before);
            return;
        }
        let marker = n < cs.len();
        proof {
            // Slashes were taken off the end exactly when there were some.
            if name@.last() == '/' {
                assert(cs@.take(cs@.len() as int) =~= cs@);
                if n == cs@.len() {
                    assert(t =~= cs@);
                    assert(t.last() != '/');
                }
            } else {
                assert(trim_slashes(cs@) == cs@);
                assert(t.len() == cs@.len());
            }
        }
        assert(marker == (name@.last() == '/'));
        let trimmed = string_of(&cs, 0, n);
        assert(trimmed@ =~= t);
        self.learn_path(trimmed.as_str(), marker);
    }

    /// Take in what the path `path` shows.
    fn learn_path(&mut self, path: &str, marker: bool)
        requires
            old(self).wf(),
        ensures
            final(self).wf(),
            final(self).facts() == old(self).facts() + path_facts(seq![], path@, marker),
    {
        let cs = chars_of(path);
        let ghost whole = old(self).facts() + path_facts(seq![], path@, marker);
        let mut i: usize = 0;
        assert(cs@.skip(0) =~= cs@);
        assert(cs@.take(0) =~= seq![]);
        loop
            invariant_except_break
                self.facts() + path_facts(cs@.take(i as int), cs@.skip(i as int), marker) == whole,
                i <= cs@.len(),
                i == 0 || cs@[i - 1] == '/',
                self.wf(),
            ensures
                self.wf(),
                self.facts() == whole,
            decreases cs.len() - i,
        {
            let ghost dir = cs@.take(i as int);
            let ghost rest = cs@.skip(i as int);
            let ghost known = self.facts();
            let k = find_from(&cs, i, '/');
            let d = string_of(&cs, 0, i);
            let name = string_of(&cs, i, k);
            proof {
                lemma_first_part(rest);
                assert(d@ =~= dir);
                assert(name@ =~= rest.take(k - i));
                assert(dir.len() == 0 || dir.last() == '/');
            }
            if k < cs.len() {
                self.learn(d, name, true);
                proof {
                    let f = ZipFact { dir, name: name@, is_dir: true };
                    assert(dir + rest.take(k - i + 1) =~= cs@.take(k + 1));
                    assert(rest.skip(k - i + 1) =~= cs@.skip(k + 1));
                    let more = path_facts(cs@.take(k + 1), cs@.skip(k + 1), marker);
                    assert(known + (seq![f] + more) =~= known.push(f) + more);
                }
                i = k + 1;
            } else {
                proof {
                    lemma_no_slash(rest);
                    assert(name@ =~= rest);
                }
                self.learn(d, name, marker);
                proof {
                    let f = ZipFact { dir, name: rest, is_dir: marker };
                    assert(known + seq![f] =~= known.push(f));
                }
                break;
            }
        }
    }

    /// Build the tree from the names of an archive's members.
    pub fn build(names: &Vec<String>) -> (r: ZipIndex)
        ensures
            r.wf(),
            r.facts() == zip_facts(text::texts(names@)),
    {
        let mut r = ZipIndex::empty();
        let ghost t = text::texts(names@);
        let mut i: usize = 0;
        assert(t.take(0) =~= seq![]);
        while i < names.len()
            invariant
                i <= names@.len(),
                t == text::texts(names@),
                r.wf(),
                r.facts() == zip_facts(t.take(i as int)),
            decreases names.len() - i,
        {
            r.learn_member(names[i].as_str());
            proof {
                assert(t.take(i + 1).drop_last() =~= t.take(i as int));
                assert(t.take(i + 1).last() == names@[i as int]@);
            }
            i = i + 1;
        }
        assert(t.take(t.len() as int) =~= t);
        r
    }
}

/// The directory of an archive that `inner` names, as facts spell it.
pub open spec fn zip_dir(inner: Seq<char>) -> Seq<char> {
    if inner.len() == 0 {
        seq![]
    } else {
        inner.push('/')
    }
}

/// The child `name` of the directory `inner` of an archive.
pub open spec fn member_child(
    archive: Seq<char>,
    inner: Seq<char>,
    name: Seq<char>,
    is_dir: bool,
) -> ChildView {
    ChildView {
        name,
        loc: LocView::Zip { archive, inner: zip_dir(inner) + name },
        is_dir,
        size: 0,
        length: None,
    }
}

/// True when `v` lists what the directory `inner` of an archive holds: each
/// name once, as a directory when some member shows it to be one. The order
/// is left open.
pub open spec fn is_zip_listing(
    v: Seq<ChildView>,
    facts: Seq<ZipFact>,
    archive: Seq<char>,
    inner: Seq<char>,
) -> bool {
    let dir = zip_dir(inner);
    &&& forall|i: int|
        0 <= i < v.len() ==> {
            let c = #[trigger] v[i];
            zip_holds(facts, dir, c.name) && c == member_child(
                archive,
                inner,
                c.name,
                zip_is_dir(facts, dir, c.name),
            )
        }
    &&& forall|i: int, j: int| 0 <= i < j < v.len() ==> (#[trigger] v[i]).name != (#[trigger] v[j]).name
    &&& forall|name: Seq<char>| #[trigger]
        zip_holds(facts, dir, name) ==> exists|i: int|
            0 <= i < v.len() && (#[trigger] v[i]).name == name
}

/// Caches per-archive directory indexes so navigating within a zip (or
/// re-entering it) does not read its member list each time. Keyed by archive
/// path; not invalidated on change.
pub struct ZipCache {
    archives: Vec<String>,
    indexes: Vec<ZipIndex>,
}

impl ZipCache {
    /// Where the archive with this key is, or past the end.
    spec fn place(&self, k: paths::PathKey) -> int {
        choose|i: int| 0 <= i < self.archives@.len() && paths::key(self.archives@[i]@) == k
    }

    /// True when the archive's members are known.
    pub closed spec fn has(&self, archive: Seq<char>) -> bool {
        exists|i: int|
            0 <= i < self.archives@.len() && paths::key((#[trigger] self.archives@[i])@)
                == paths::key(archive)
    }

    /// What the members of a known archive show.
    pub closed spec fn facts(&self, archive: Seq<char>) -> Seq<ZipFact> {
        self.indexes@[self.place(paths::key(archive))].facts()
    }

    /// No archive is kept twice.
    pub closed spec fn wf(&self) -> bool {
        &&& self.archives@.len() == self.indexes@.len()
        &&& forall|i: int| 0 <= i < self.indexes@.len() ==> (#[trigger] self.indexes@[i]).wf()
        &&& forall|i: int, j: int|
            0 <= i < j < self.archives@.len() ==> paths::key((#[trigger] self.archives@[i])@)
                != paths::key((#[trigger] self.archives@[j])@)
    }

    pub fn new() -> (r: ZipCache)
        ensures
            r.wf(),
            forall|a: Seq<char>| !#[trigger] r.has(a),
    {
        ZipCache { archives: Vec::new(), indexes: Vec::new() }
    }

    fn find_archive(&self, archive: &str) -> (r: Option<usize>)
        requires
            self.wf(),
        ensures
            r is Some == self.has(archive@),
            r matches Some(i) ==> i < self.indexes@.len() && self.indexes@[i as int].facts()
                == self.facts(archive@) && self.indexes@[i as int].wf(),
    {
        let mut i: usize = 0;
        while i < self.archives.len()
            invariant
                i <= self.archives@.len(),
                self.wf(),
                forall|k: int|
                    0 <= k < i ==> paths::key((#[trigger] self.archives@[k])@) != paths::key(archive@),
            decreases self.archives.len() - i,
        {
            if same_path(self.archives[i].as_str(), archive) {
                proof {
                    let p = self.place(paths::key(archive@));
                    assert(paths::key(self.archives@[i as int]@) == paths::key(archive@));
                    assert(p == i);
                }
                return Some(i);
            }
            i = i + 1;
        }
        None
    }

    /// True when the archive's members are known already.
    pub fn holds(&self, archive: &str) -> (r: bool)
        requires
            self.wf(),
        ensures
            r == self.has(archive@),
    {
        self.find_archive(archive).is_some()
    }

    /// Keep the members of an archive, unless they are known already.
    pub fn add_archive(&mut self, archive: &str, names: &Vec<String>)
        requires
            old(self).wf(),
        ensures
            final(self).wf(),
            forall|a: Seq<char>| #[trigger]
                final(self).has(a) == (old(self).has(a) || paths::key(a) == paths::key(archive@)),
            forall|a: Seq<char>| #[trigger]
                old(self).has(a) ==> final(self).facts(a) == old(self).facts(a),
            !old(self).has(archive@) ==> final(self).facts(archive@) == zip_facts(
                text::texts(names@),
            ),
    {
        if self.find_archive(archive).is_some() {
            assert forall|a: Seq<char>| paths::key(a) == paths::key(archive@) implies #[trigger]
            self.has(a) by {
                let i = choose|i: int|
                    0 <= i < self.archives@.len() && paths::key((#[trigger] self.archives@[i])@)
                        == paths::key(archive@);
                assert(paths::key(self.archives@[i]@) == paths::key(a));
            }
            return;
        }
        let ghost before = *self;
        let index = ZipIndex::build(names);
        let n: usize = self.archives.len();
        self.archives.push(archive.to_owned());
        self.indexes.push(index);
        proof {
            let me = *self;
            assert(me.archives@[n as int]@ == archive@);
            assert forall|i: int| 0 <= i < n implies me.archives@[i] == before.archives@[i]
                && me.indexes@[i] == before.indexes@[i] by {}
            assert forall|i: int, j: int| 0 <= i < j < me.archives@.len() implies paths::key(
                (#[trigger] me.archives@[i])@,
            ) != paths::key((#[trigger] me.archives@[j])@) by {
                if j == n {
                    assert(paths::key(before.archives@[i]@) != paths::key(archive@));
                }
            }
            assert forall|a: Seq<char>| #[trigger]
                me.has(a) == (before.has(a) || paths::key(a) == paths::key(archive@)) by {
                if before.has(a) {
                    let i = choose|i: int|
                        0 <= i < before.archives@.len() && paths::key(
                            (#[trigger] before.archives@[i])@,
                        ) == paths::key(a);
                    assert(me.archives@[i] == before.archives@[i]);
                }
                if paths::key(a) == paths::key(archive@) {
                    assert(paths::key(me.archives@[n as int]@) == paths::key(a));
                }
                if me.has(a) {
                    let i = choose|i: int|
                        0 <= i < me.archives@.len() && paths::key((#[trigger] me.archives@[i])@)
                            == paths::key(a);
                    if i < n {
                        assert(me.archives@[i] == before.archives@[i]);
                    }
                }
            }
            assert forall|a: Seq<char>| #[trigger] before.has(a) implies me.facts(a)
                == before.facts(a) by {
                let k = paths::key(a);
                let i = choose|i: int|
                    0 <= i < before.archives@.len() && paths::key((#[trigger] before.archives@[i])@)
                        == k;
                let p = before.place(k);
                assert(paths::key(before.archives@[p]@) == k);
                assert(p == i);
                assert(me.archives@[i] == before.archives@[i]);
                let q = me.place(k);
                assert(paths::key(me.archives@[i]@) == k);
                assert(paths::key(me.archives@[q]@) == k);
                assert(q == i);
            }
            let k = paths::key(archive@);
            let q = me.place(k);
            assert(paths::key(me.archives@[n as int]@) == k);
            assert(q == n);
        }
    }
}

fn read_dir_zip(index: &ZipIndex, archive: &str, inner: &str) -> (r: Vec<DirChild>)
    requires
        index.wf(),
    ensures
        is_zip_listing(child_views(r@), index.facts(), archive@, inner@),
{
    let mut dir = inner.to_owned();
    if !inner.is_empty() {
        dir.push('/');
    }
    let ghost d = zip_dir(inner@);
    assert(dir@ =~= d);
    let ghost facts = index.facts();
    let mut out: Vec<DirChild> = Vec::new();
    let mut i: usize = 0;
    while i < index.nodes.len()
        invariant
            i <= index.nodes@.len(),
            index.wf(),
            facts == index.facts(),
            d == zip_dir(inner@),
            dir@ == d,
            forall|k: int|
                0 <= k < out@.len() ==> {
                    let c = (#[trigger] out@[k])@;
                    zip_holds(facts, d, c.name) && c == member_child(
                        archive@,
                        inner@,
                        c.name,
                        zip_is_dir(facts, d, c.name),
                    )
                },
            forall|k: int, j: int|
                0 <= k < j < out@.len() ==> (#[trigger] out@[k]).name@ != (#[trigger] out@[j]).name@,
            forall|k: int|
                0 <= k < out@.len() ==> exists|j: int|
                    0 <= j < i && #[trigger] index.nodes@[j].dir@ == d && index.nodes@[j].name@
                        == (#[trigger] out@[k]).name@,
            forall|j: int|
                0 <= j < i && (#[trigger] index.nodes@[j]).dir@ == d ==> exists|k: int|
                    0 <= k < out@.len() && (#[trigger] out@[k]).name@ == index.nodes@[j].name@,
        decreases index.nodes.len() - i,
    {
        let n = &index.nodes[i];
        let ghost prev = out@;
        if same_text(n.dir.as_str(), dir.as_str()) {
            let mut path = dir.clone();
            path.append(n.name.as_str());
            out.push(
                DirChild {
                    name: n.name.clone(),
                    loc: Location::Zip { archive: archive.to_owned(), inner: path },
                    is_dir: n.is_dir,
                    size: 0,
                    length: None,
                },
            );
            proof {
                assert forall|k: int| 0 <= k < prev.len() implies (#[trigger] prev[k]).name@
                    != n.name@ by {
                    let j = choose|j: int|
                        0 <= j < i && #[trigger] index.nodes@[j].dir@ == d && index.nodes@[j].name@
                            == prev[k].name@;
                    if prev[k].name@ == n.name@ {
                        assert(index.at@[index.nodes@[j].dir@ + index.nodes@[j].name@] == j);
                        assert(index.at@[n.dir@ + n.name@] == i);
                    }
                }
                assert(out@[prev.len() as int].name@ == n.name@);
                assert forall|j: int|
                    0 <= j < i + 1 && (#[trigger] index.nodes@[j]).dir@ == d implies exists|k: int|
                    0 <= k < out@.len() && (#[trigger] out@[k]).name@ == index.nodes@[j].name@ by {
                    if j < i {
                        let k = choose|k: int|
                            0 <= k < prev.len() && (#[trigger] prev[k]).name@
                                == index.nodes@[j].name@;
                        assert(out@[k] == prev[k]);
                    }
                }
            }
        }
        i = i + 1;
    }
    proof {
        let v = child_views(out@);
        assert forall|name: Seq<char>| #[trigger] zip_holds(facts, d, name) implies exists|k: int|
            0 <= k < v.len() && (#[trigger] v[k]).name == name by {
            let x = choose|x: int|
                0 <= x < facts.len() && (#[trigger] facts[x]).dir == d && facts[x].name == name;
            let p = facts[x].dir + facts[x].name;
            assert(index.at@.contains_key(p));
            let j = index.at@[p] as int;
            let node = index.nodes@[j];
            lemma_dir_and_name(node.dir@, node.name@, d, name);
            let k = choose|k: int|
                0 <= k < out@.len() && (#[trigger] out@[k]).name@ == index.nodes@[j].name@;
            assert(v[k].name == name);
        }
        assert forall|k: int| 0 <= k < v.len() implies {
            let c = #[trigger] v[k];
            zip_holds(facts, d, c.name) && c == member_child(
                archive@,
                inner@,
                c.name,
                zip_is_dir(facts, d, c.name),
            )
        } by {
            assert(v[k] == out@[k]@);
        }
        assert forall|a: int, b: int| 0 <= a < b < v.len() implies (#[trigger] v[a]).name != (
        #[trigger] v[b]).name by {
            assert(out@[a].name@ != out@[b].name@);
        }
    }
    out
}

/// A child of a directory of an archive names something in it.
proof fn lemma_member_is_in(archive: Seq<char>, inner: Seq<char>, name: Seq<char>, is_dir: bool)
    requires
        paths::is_seg(name),
    ensures
        member_child(archive, inner, name, is_dir).is_in(LocView::Zip { archive, inner }),
        member_child(archive, inner, name, is_dir).loc.raw_name() == name,
{
    let d = zip_dir(inner);
    let s = d + name;
    assert forall|i: int| d.len() <= i < s.len() implies s[i] != '/' by {
        assert(s[i] == name[i - d.len()]);
        assert(name.contains(name[i - d.len()]));
    }
    text::lemma_past_last_is(s, '/', d.len() as int);
    assert(s.skip(d.len() as int) =~= name);
    if inner.len() > 0 {
        assert(s.take(d.len() - 1) =~= inner);
    } else {
        assert(inner =~= seq![]);
    }
}

/// The name of the `i`-th child of a directory, spelled as in a path: on disk, as
/// the entry spells it; in an archive, as it is shown.
pub open spec fn spelled(dir: LocView, entries: Seq<DiskEntry>, c: ChildView, i: int) -> Seq<char> {
    if dir is Fs {
        entries[i].name@
    } else {
        c.name
    }
}

/// List the immediate children of a directory location, each located in it
/// under its name. The returned children are unsorted and unfiltered; the
/// browser applies hidden-file and extension filtering. `entries` is what the
/// directory holds on disk. When `allow_archives` is true, a filesystem `.zip`
/// file appears as a directory whose location is the archive root; when false
/// it is reported as an ordinary file, which is how the SoundFont panel keeps
/// archives out. An archive whose members are not known lists nothing.
pub fn read_dir(
    dir: &Location,
    entries: &Vec<DiskEntry>,
    cache: &ZipCache,
    allow_archives: bool,
) -> (r: Vec<DirChild>)
    requires
        cache.wf(),
    ensures
        match dir@ {
            LocView::Fs(p) => child_views(r@) == fs_children(entries@, p, allow_archives),
            LocView::Zip { archive, inner } => if cache.has(archive) {
                is_zip_listing(child_views(r@), cache.facts(archive), archive, inner)
            } else {
                r@.len() == 0
            },
        },
        forall|i: int|
            0 <= i < r@.len() && paths::is_name(spelled(dir@, entries@, r@[i]@, i)) ==> (
            #[trigger] r@[i])@.is_in(dir@) && r@[i]@.loc.raw_name() == spelled(
                dir@,
                entries@,
                r@[i]@,
                i,
            ),
{
    let r = match dir {
        Location::Fs(p) => read_dir_fs(entries, p.as_str(), allow_archives),
        Location::Zip { archive, inner } => match cache.find_archive(archive.as_str()) {
            Some(i) => read_dir_zip(&cache.indexes[i], archive.as_str(), inner.as_str()),
            None => Vec::new(),
        },
    };
    proof {
        assert forall|i: int|
            0 <= i < r@.len() && paths::is_name(spelled(dir@, entries@, r@[i]@, i)) implies (
        #[trigger] r@[i])@.is_in(dir@) && r@[i]@.loc.raw_name() == spelled(
            dir@,
            entries@,
            r@[i]@,
            i,
        ) by {
            let c = child_views(r@)[i];
            assert(c == r@[i]@);
            match dir@ {
                LocView::Fs(p) => {
                    let all = fs_children(entries@, p, allow_archives);
                    assert(child_views(r@) == all);
                    assert(child_views(r@).len() == all.len());
                    assert(c == child_of(entries@[i], p, allow_archives));
                    lemma_child_is_in(entries@[i], p, allow_archives);
                },
                LocView::Zip { archive, inner } => {
                    lemma_member_is_in(archive, inner, c.name, c.is_dir);
                },
            }
        }
    }
    r
}

/// The suffix of the temporary file that an archive member is unpacked to: the
/// member's extension, so that a format is still told by it.
pub open spec fn temp_suffix(inner: Seq<char>) -> Seq<char> {
    match paths::extension(inner) {
        Some(e) => seq!['.'] + e,
        None => seq![],
    }
}

pub fn temp_suffix_of(inner: &str) -> (r: String)
    ensures
        r@ == temp_suffix(inner@),
{
    let mut r = String::new();
    match paths::extension_of(inner) {
        Some(e) => {
            r.push('.');
            r.append(e.as_str());
        },
        None => {},
    }
    assert(r@ =~= temp_suffix(inner@));
    r
}

} // verus!
