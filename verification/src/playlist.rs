//! Playlists: user-authored lists of MIDI tracks, each optionally pinned to a
//! SoundFont, stored as extended M3U files.
//!
//! Unlike the [favourites](crate::favourites), which are always (track, font)
//! pairs, a playlist is a document the user owns: it can sit anywhere, be
//! written by hand in a text editor, and mix items that bring their own
//! SoundFont with items that play through the user's font.
//!
//! ```text
//! #EXTM3U
//! #PLAYLIST:Evening A/B
//! #VOXFONT:sf=/srv/sf2/CT8MGM.SF2
//! ~/midi/CANYON.MID
//! classics/bwv1041.mid
//! ```
//!
//! Every non-comment line is one item. `#VOXFONT:sf=<path>` pins a SoundFont to
//! the *next* item only; an item without one has no font of its own. Relative
//! paths resolve against the playlist's directory, and a path running through a
//! `.zip` file addresses a member of that archive.
//!
//! Lines that are not acted on — comments, `#EXTINF` and other players' tags,
//! tracks that are not MIDI files — are kept with the item that follows them and
//! written back on save, so saving a hand-edited file loses nothing. A
//! directive whose place another one took is such a line too; where it would
//! pin an item again, because none takes its place any more, it is written at
//! the end of the file instead.

use crate::ascii;
use crate::ascii::lower_ascii_text;
use crate::conf;
use crate::conf::push_line;
use crate::favourites;
use crate::history;
use crate::history::{filter_rows, is_gone, History, Row, RowView, Writing};
use crate::host;
use crate::host::Host;
use crate::paths;
use crate::paths::{
    below_base, extension_of, file_name_of, join_path, join_texts, normal_parts, parent_of, parts_of,
    render_parts, Parts,
};
use crate::raw;
use crate::raw::shown_text;
use crate::text;
use crate::text::{begins, clone_strings, same_text, split_lines, strip_prefix, trimmed};
use crate::vfs;
use crate::vfs::{clone_loc, is_archive, same_opt, Disk, FileKind, LocView, Location};
use vstd::prelude::*;
use vstd::string::*;

verus! {

// --- extensions -------------------------------------------------------------

/// File extensions recognised as playlists.
pub open spec fn playlist_exts() -> Seq<Seq<char>> {
    seq!["m3u"@, "m3u8"@]
}

/// File extensions of MIDI files.
pub open spec fn midi_exts() -> Seq<Seq<char>> {
    seq!["mid"@, "midi"@, "kar"@, "rmi"@]
}

/// File extensions of SoundFonts.
pub open spec fn sf2_exts() -> Seq<Seq<char>> {
    seq!["sf2"@, "sf3"@]
}

/// True when `name` has one of the extensions, whatever its letter case.
pub open spec fn has_ext(name: Seq<char>, exts: Seq<Seq<char>>) -> bool {
    paths::extension(name) matches Some(e) && exists|i: int|
        0 <= i < exts.len() && ascii::lower_ascii(#[trigger] exts[i]) == ascii::lower_ascii(e)
}

pub fn playlist_ext_list() -> (r: Vec<String>)
    ensures
        text::texts(r@) == playlist_exts(),
{
    let mut r: Vec<String> = Vec::new();
    r.push("m3u".to_owned());
    r.push("m3u8".to_owned());
    assert(text::texts(r@) =~= playlist_exts());
    r
}

pub fn midi_ext_list() -> (r: Vec<String>)
    ensures
        text::texts(r@) == midi_exts(),
{
    let mut r: Vec<String> = Vec::new();
    r.push("mid".to_owned());
    r.push("midi".to_owned());
    r.push("kar".to_owned());
    r.push("rmi".to_owned());
    assert(text::texts(r@) =~= midi_exts());
    r
}

pub fn sf2_ext_list() -> (r: Vec<String>)
    ensures
        text::texts(r@) == sf2_exts(),
{
    let mut r: Vec<String> = Vec::new();
    r.push("sf2".to_owned());
    r.push("sf3".to_owned());
    assert(text::texts(r@) =~= sf2_exts());
    r
}

pub fn name_has_ext(name: &str, exts: &Vec<String>) -> (r: bool)
    ensures
        r == has_ext(name@, text::texts(exts@)),
{
    let ghost t = text::texts(exts@);
    match extension_of(name) {
        Some(e) => {
            let low = lower_ascii_text(e.as_str());
            let mut i: usize = 0;
            while i < exts.len()
                invariant
                    i <= exts@.len(),
                    t == text::texts(exts@),
                    low@ == ascii::lower_ascii(e@),
                    paths::extension(name@) == Some(e@),
                    forall|k: int|
                        0 <= k < i ==> ascii::lower_ascii(#[trigger] t[k]) != ascii::lower_ascii(e@),
                decreases exts.len() - i,
            {
                let x = lower_ascii_text(exts[i].as_str());
                assert(t[i as int] == exts@[i as int]@);
                if same_text(x.as_str(), low.as_str()) {
                    return true;
                }
                i = i + 1;
            }
            false
        },
        None => false,
    }
}

/// True when `name` has a playlist extension.
pub fn is_playlist_name(name: &str) -> (r: bool)
    ensures
        r == has_ext(name@, playlist_exts()),
{
    let exts = playlist_ext_list();
    name_has_ext(name, &exts)
}

// --- paths in a playlist ----------------------------------------------------

/// `path` made absolute against the working directory, lexically normalised.
pub fn absolute(path: &str, host: &Host) -> (r: String)
    ensures
        r@ == host::absolute_text(path@, host@.cwd),
{
    match &host.cwd {
        Some(d) => if path.unicode_len() == 0 {
            crate::paths::normalized(path)
        } else {
            let j = join_path(d.as_str(), path);
            crate::paths::normalized(j.as_str())
        },
        None => crate::paths::normalized(path),
    }
}

/// A location with its path made absolute.
pub open spec fn absolute_view(l: LocView, cwd: Option<Seq<char>>) -> LocView {
    match l {
        LocView::Fs(p) => LocView::Fs(host::absolute_text(p, cwd)),
        LocView::Zip { archive, inner } => LocView::Zip {
            archive: host::absolute_text(archive, cwd),
            inner,
        },
    }
}

pub fn absolute_loc(loc: &Location, host: &Host) -> (r: Location)
    ensures
        r@ == absolute_view(loc@, host@.cwd),
{
    match loc {
        Location::Fs(p) => Location::Fs(absolute(p.as_str(), host)),
        Location::Zip { archive, inner } => Location::Zip {
            archive: absolute(archive.as_str(), host),
            inner: inner.clone(),
        },
    }
}

/// The location that the components from the `i`-th on name: split at the
/// first component that is an existing `.zip` *file*, the rest being the
/// member path.
pub open spec fn split_from(k: paths::PathKey, disk: Map<Seq<char>, FileKind>, i: int) -> LocView
    decreases k.segs.len() - i,
{
    if i < 0 || i + 1 >= k.segs.len() {
        LocView::Fs(paths::render(k))
    } else {
        let front = paths::render(paths::PathKey { root: k.root, segs: k.segs.take(i + 1) });
        if vfs::archive_name(k.segs[i]) && vfs::file_on_disk(disk, front) {
            LocView::Zip { archive: front, inner: paths::join_segs(k.segs.skip(i + 1)) }
        } else {
            split_from(k, disk, i + 1)
        }
    }
}

/// The path that the text `s` in a playlist stands for: `~` is the home
/// directory, and a relative path is relative to `base`.
pub open spec fn resolved_key(s: Seq<char>, base: Seq<char>, home: Seq<char>) -> paths::PathKey {
    paths::norm_key(paths::key(paths::join(base, host::tilde(s, home))))
}

/// The location that the text `s` in a playlist names.
pub open spec fn resolve(
    s: Seq<char>,
    base: Seq<char>,
    home: Seq<char>,
    disk: Map<Seq<char>, FileKind>,
) -> LocView {
    split_from(resolved_key(s, base, home), disk, 0)
}

fn resolved_parts(s: &str, base: &str, host: &Host) -> (r: Parts)
    ensures
        r.key() == resolved_key(s@, base@, host@.home_text()),
{
    let p = host.expand_tilde(s);
    let j = join_path(base, p.as_str());
    normal_parts(parts_of(j.as_str()))
}

/// The first `n` components of a path.
fn front_of(p: &Parts, n: usize) -> (r: String)
    requires
        n <= p.segs@.len(),
    ensures
        r@ == paths::render(
            paths::PathKey { root: p.root, segs: text::texts(p.segs@).take(n as int) },
        ),
{
    let mut segs: Vec<String> = Vec::new();
    let mut i: usize = 0;
    while i < n
        invariant
            i <= n <= p.segs@.len(),
            segs@ == p.segs@.take(i as int),
        decreases n - i,
    {
        segs.push(p.segs[i].clone());
        assert(p.segs@.take(i + 1) =~= p.segs@.take(i as int).push(p.segs@[i as int]));
        i = i + 1;
    }
    let q = Parts { root: p.root, segs };
    assert(text::texts(q.segs@) =~= text::texts(p.segs@).take(n as int));
    render_parts(&q)
}

/// Split a path at the first component that is an existing `.zip` *file*,
/// making the rest the member path. A real directory named `x.zip` is not an
/// archive.
pub fn split_archive(p: &Parts, disk: &Disk) -> (r: Location)
    ensures
        r@ == split_from(p.key(), disk@, 0),
{
    let ghost k = p.key();
    let n: usize = p.segs.len();
    let mut i: usize = 0;
    while n >= 2 && i < n - 1
        invariant
            n == p.segs@.len(),
            k == p.key(),
            i <= n,
            split_from(k, disk@, i as int) == split_from(k, disk@, 0),
        decreases n - i,
    {
        assert(k.segs[i as int] == p.segs@[i as int]@);
        if is_archive(p.segs[i].as_str()) {
            let front = front_of(p, i + 1);
            if disk.is_file(front.as_str()) {
                let inner = join_texts(&p.segs, i + 1);
                return Location::Zip { archive: front, inner };
            }
        }
        i = i + 1;
    }
    Location::Fs(render_parts(p))
}

/// Resolve a path as written in a playlist.
pub fn resolve_text(s: &str, base: &str, host: &Host, disk: &Disk) -> (r: Location)
    ensures
        r@ == resolve(s@, base@, host@.home_text(), disk@),
{
    let p = resolved_parts(s, base, host);
    split_archive(&p, disk)
}

/// A text that reads back as a path rather than as a comment or a home path.
pub open spec fn guarded(s: Seq<char>) -> Seq<char> {
    if (s.len() > 0 && s[0] == '#') || s == seq!['~'] || text::starts_with(s, seq!['~', '/']) {
        seq!['.', '/'] + s
    } else {
        s
    }
}

/// The path on disk of a location, from `base` where it is below it.
pub open spec fn disk_part(l: LocView, base: Seq<char>) -> Seq<char> {
    let p = match l {
        LocView::Fs(p) => p,
        LocView::Zip { archive, inner: _ } => archive,
    };
    match paths::below(paths::key(p), paths::key(base)) {
        Some(rel) => rel,
        None => p,
    }
}

/// A location as written in a playlist at `base`: relative when it is below
/// `base`, absolute otherwise, with an archive member spelled as a path running
/// through the archive.
pub open spec fn path_text(l: LocView, base: Seq<char>) -> Seq<char> {
    let s = raw::shown(disk_part(l, base));
    let inner = match l {
        LocView::Fs(_) => seq![],
        LocView::Zip { archive, inner } => inner,
    };
    guarded(
        if inner.len() > 0 {
            s.push('/') + inner
        } else {
            s
        },
    )
}

fn write_path(loc: &Location, base: &str) -> (r: String)
    ensures
        r@ == path_text(loc@, base@),
{
    let path = loc.disk_path();
    let a = parts_of(path.as_str());
    let b = parts_of(base);
    let part = match below_base(&a, &b) {
        Some(rel) => rel,
        None => path,
    };
    let mut s = shown_text(part.as_str());
    match loc {
        Location::Zip { inner, .. } => {
            if inner.as_str().unicode_len() > 0 {
                s.push('/');
                s.append(inner.as_str());
            }
        },
        Location::Fs(_) => {},
    }
    proof {
        reveal_strlit("#");
        reveal_strlit("~");
        reveal_strlit("~/");
        reveal_strlit("./");
        assert("~"@ =~= seq!['~']);
        assert("~/"@ =~= seq!['~', '/']);
        assert("./"@ =~= seq!['.', '/']);
    }
    let hash = s.as_str().unicode_len() > 0 && s.as_str().get_char(0) == '#';
    if hash || same_text(s.as_str(), "~") || begins(s.as_str(), "~/") {
        let mut r = "./".to_owned();
        r.append(s.as_str());
        r
    } else {
        s
    }
}

/// The directory a playlist's relative paths resolve from.
pub fn base_dir(path: &str) -> (r: String)
    ensures
        r@ == vfs::dir_of(path@),
{
    match parent_of(path) {
        Some(d) => d,
        None => {
            let mut r = String::new();
            r.push('/');
            r
        },
    }
}

// --- the file ---------------------------------------------------------------

/// The per-item SoundFont directive.
pub open spec fn sf_directive() -> Seq<char> {
    "#VOXFONT:sf="@
}

/// Standard extended-M3U title directive.
pub open spec fn title_directive() -> Seq<char> {
    "#PLAYLIST:"@
}

/// One entry: a track, and the SoundFont it must be heard through if it has one.
#[derive(Debug)]
pub struct Item {
    pub midi: Location,
    /// `None` plays the item through the user's font.
    pub soundfont: Option<Location>,
    /// Lines that preceded the item in the file without being acted on, written
    /// back in front of it so notes and foreign tags move with their item.
    pub extra: Vec<String>,
}

/// An entry, as texts.
#[verifier::ext_equal]
pub struct ItemView {
    pub midi: LocView,
    pub soundfont: Option<LocView>,
    pub extra: Seq<Seq<char>>,
}

impl View for Item {
    type V = ItemView;

    open spec fn view(&self) -> ItemView {
        ItemView {
            midi: self.midi@,
            soundfont: vfs::opt_view(self.soundfont),
            extra: text::texts(self.extra@),
        }
    }
}

impl Clone for Item {
    fn clone(&self) -> (r: Self)
        ensures
            r@ == self@,
            r.midi == self.midi,
            r.soundfont == self.soundfont,
    {
        Item {
            midi: self.midi.clone(),
            soundfont: clone_loc(&self.soundfont),
            extra: clone_strings(&self.extra),
        }
    }
}

/// The entries in a list.
pub open spec fn item_views(v: Seq<Item>) -> Seq<ItemView> {
    v.map_values(|i: Item| i@)
}

/// A parsed playlist file, before items are given their session identities.
pub struct Doc {
    pub title: Option<String>,
    /// Comment lines at the top of the file, separated from the first item by a
    /// blank line. They stay at the top however the items are reordered.
    pub header: Vec<String>,
    pub items: Vec<Item>,
    /// Lines after the last item.
    pub trailer: Vec<String>,
    /// How many lines were not acted on (kept, but not played).
    pub ignored: usize,
}

/// A parsed playlist file, as texts.
#[verifier::ext_equal]
pub struct DocView {
    pub title: Option<Seq<char>>,
    pub header: Seq<Seq<char>>,
    pub items: Seq<ItemView>,
    pub trailer: Seq<Seq<char>>,
    pub ignored: int,
}

impl View for Doc {
    type V = DocView;

    open spec fn view(&self) -> DocView {
        DocView {
            title: history::opt_text(self.title),
            header: text::texts(self.header@),
            items: item_views(self.items@),
            trailer: text::texts(self.trailer@),
            ignored: self.ignored as int,
        }
    }
}

/// Where a file is read from, and what is around it.
#[verifier::ext_equal]
pub struct Place {
    pub base: Seq<char>,
    pub home: Seq<char>,
    pub disk: Map<Seq<char>, FileKind>,
}

/// What was read of a file so far.
#[verifier::ext_equal]
pub struct Reading {
    pub title: Option<Seq<char>>,
    pub header: Seq<Seq<char>>,
    pub items: Seq<ItemView>,
    /// Lines waiting for the item they belong to.
    pub pending: Seq<Seq<char>>,
    /// A SoundFont directive waiting for its track, with its line as written.
    pub font: Option<(LocView, Seq<char>)>,
    pub ignored: int,
}

impl Reading {
    /// A directive that found no track is kept as a line, but not acted on.
    pub open spec fn drop_font(self) -> Reading {
        match self.font {
            Some((_, line)) => Reading {
                pending: self.pending.push(line),
                font: None,
                ignored: self.ignored + 1,
                ..self
            },
            None => self,
        }
    }

    /// A line kept for the item that follows.
    pub open spec fn keep(self, line: Seq<char>) -> Reading {
        Reading { pending: self.pending.push(line), ..self }
    }

    /// A line kept that was not acted on.
    pub open spec fn ignore(self, line: Seq<char>) -> Reading {
        Reading { pending: self.pending.push(line), ignored: self.ignored + 1, ..self }
    }

    /// A further line, without the space around it.
    pub open spec fn step(self, line: Seq<char>, at: Place) -> Reading {
        if line.len() == 0 {
            // A blank line before the first item closes off the file header.
            if self.items.len() == 0 {
                Reading { header: self.header + self.pending, pending: seq![], ..self }
            } else {
                self
            }
        } else if line == "#EXTM3U"@ {
            self
        } else if text::starts_with(line, title_directive()) {
            let t = text::trim(line.skip(title_directive().len() as int));
            Reading {
                title: if t.len() > 0 {
                    Some(t)
                } else {
                    None
                },
                ..self
            }
        } else if text::starts_with(line, sf_directive()) {
            let v = text::trim(line.skip(sf_directive().len() as int));
            if has_ext(v, sf2_exts()) {
                Reading {
                    font: Some((resolve(v, at.base, at.home, at.disk), line)),
                    ..self.drop_font()
                }
            } else {
                self.drop_font().ignore(line)
            }
        } else if line[0] == '#' {
            self.keep(line)
        } else if !has_ext(line, midi_exts()) {
            // Not something that can be played here (an audio file from another
            // player's list, say). Kept for that player.
            self.ignore(line)
        } else {
            Reading {
                items: self.items.push(
                    ItemView {
                        midi: resolve(line, at.base, at.home, at.disk),
                        soundfont: match self.font {
                            Some((l, _)) => Some(l),
                            None => None,
                        },
                        extra: self.pending,
                    },
                ),
                pending: seq![],
                font: None,
                ..self
            }
        }
    }

    pub open spec fn finish(self) -> DocView {
        let r = self.drop_font();
        DocView {
            title: r.title,
            header: r.header,
            items: r.items,
            trailer: r.pending,
            ignored: r.ignored,
        }
    }
}

pub open spec fn nothing_read() -> Reading {
    Reading {
        title: None,
        header: seq![],
        items: seq![],
        pending: seq![],
        font: None,
        ignored: 0,
    }
}

pub open spec fn reading(lines: Seq<Seq<char>>, at: Place) -> Reading
    decreases lines.len(),
{
    if lines.len() == 0 {
        nothing_read()
    } else {
        reading(lines.drop_last(), at).step(text::trim(lines.last()), at)
    }
}

/// `s` without a byte order mark at its start.
pub open spec fn without_bom(s: Seq<char>) -> Seq<char> {
    if s.len() > 0 && s[0] == '\u{feff}' {
        s.skip(1)
    } else {
        s
    }
}

/// What a playlist's text holds.
pub open spec fn parsed(s: Seq<char>, at: Place) -> DocView {
    reading(text::lines(without_bom(s)), at).finish()
}

/// True for a SoundFont directive.
pub open spec fn is_directive(l: Seq<char>) -> bool {
    text::starts_with(l, sf_directive())
}

/// True for a SoundFont directive that names a SoundFont.
pub open spec fn is_pin(l: Seq<char>) -> bool {
    is_directive(l) && has_ext(text::trim(l.skip(sf_directive().len() as int)), sf2_exts())
}

/// The kept lines that can be written where an item without a SoundFont of its
/// own follows: all but those that would pin it, because no other directive
/// takes their place.
pub open spec fn tame(v: Seq<Seq<char>>) -> Seq<Seq<char>>
    decreases v.len(),
{
    if v.len() == 0 {
        seq![]
    } else if is_pin(v.last()) {
        tame(v.drop_last())
    } else if is_directive(v.last()) {
        v
    } else {
        tame(v.drop_last()).push(v.last())
    }
}

/// The others: they are written at the end of the file, where no item follows.
pub open spec fn stray(v: Seq<Seq<char>>) -> Seq<Seq<char>>
    decreases v.len(),
{
    if v.len() == 0 {
        seq![]
    } else if is_pin(v.last()) {
        stray(v.drop_last()).push(v.last())
    } else if is_directive(v.last()) {
        seq![]
    } else {
        stray(v.drop_last())
    }
}

/// The kept lines written in front of an item. The directive of an item that
/// has a SoundFont takes the place of any before it.
pub open spec fn notes(i: ItemView) -> Seq<Seq<char>> {
    if i.soundfont is Some {
        i.extra
    } else {
        tame(i.extra)
    }
}

/// The lines of an item.
pub open spec fn item_lines(i: ItemView, base: Seq<char>) -> Seq<Seq<char>> {
    notes(i) + (match i.soundfont {
        Some(sf) => seq![sf_directive() + path_text(sf, base)],
        None => seq![],
    }) + seq![path_text(i.midi, base)]
}

/// The lines of the first `n` items.
pub open spec fn items_lines(s: Seq<ItemView>, n: int, base: Seq<char>) -> Seq<Seq<char>>
    decreases n,
{
    if n <= 0 {
        seq![]
    } else {
        items_lines(s, n - 1, base) + item_lines(s[n - 1], base)
    }
}

/// The kept lines of the first `n` items that are written at the end.
pub open spec fn items_stray(s: Seq<ItemView>, n: int) -> Seq<Seq<char>>
    decreases n,
{
    if n <= 0 {
        seq![]
    } else {
        items_stray(s, n - 1) + if s[n - 1].soundfont is Some {
            seq![]
        } else {
            stray(s[n - 1].extra)
        }
    }
}

/// True when a line at the top of the file cannot pin an item: there is none,
/// or the lines of the first one hold a directive that takes its place.
pub open spec fn top_is_safe(items: Seq<ItemView>) -> bool {
    items.len() == 0 || items[0].soundfont is Some || ends_waiting(items[0].extra)
}

/// True when the lines hold a directive that names no SoundFont: none that
/// waits before it waits after it.
pub open spec fn ends_waiting(v: Seq<Seq<char>>) -> bool {
    exists|i: int| 0 <= i < v.len() && is_directive(#[trigger] v[i]) && !is_pin(v[i])
}

/// The lines of the header that are written at the top.
pub open spec fn top_notes(header: Seq<Seq<char>>, items: Seq<ItemView>) -> Seq<Seq<char>> {
    if top_is_safe(items) {
        header
    } else {
        tame(header)
    }
}

/// The lines of the header that are written at the end.
pub open spec fn top_stray(header: Seq<Seq<char>>, items: Seq<ItemView>) -> Seq<Seq<char>> {
    if top_is_safe(items) {
        seq![]
    } else {
        stray(header)
    }
}

/// The lines in front of the items, `notes` being those of the header. The
/// blank line is what keeps the header at the top on the next read.
pub open spec fn top_lines(title: Option<Seq<char>>, notes: Seq<Seq<char>>) -> Seq<Seq<char>> {
    seq!["#EXTM3U"@] + (match title {
        Some(t) => seq![title_directive() + t],
        None => seq![],
    }) + notes + if notes.len() > 0 {
        seq![Seq::<char>::empty()]
    } else {
        seq![]
    }
}

/// The lines of the file, with paths relative to `base` where they are below
/// it.
pub open spec fn doc_lines(d: DocView, base: Seq<char>) -> Seq<Seq<char>> {
    let n = d.items.len() as int;
    top_lines(d.title, top_notes(d.header, d.items)) + items_lines(d.items, n, base) + d.trailer
        + top_stray(d.header, d.items) + items_stray(d.items, n)
}

/// What was read of a file so far, with its texts.
struct Draft {
    title: Option<String>,
    header: Vec<String>,
    items: Vec<Item>,
    pending: Vec<String>,
    font: Option<(Location, String)>,
    ignored: usize,
}

impl Draft {
    spec fn as_reading(&self) -> Reading {
        Reading {
            title: history::opt_text(self.title),
            header: text::texts(self.header@),
            items: item_views(self.items@),
            pending: text::texts(self.pending@),
            font: match self.font {
                Some((l, line)) => Some((l@, line@)),
                None => None,
            },
            ignored: self.ignored as int,
        }
    }

    /// The lines counted as ignored, with one that may yet be.
    spec fn counted(&self) -> int {
        self.ignored + if self.font is Some {
            1int
        } else {
            0
        }
    }

    fn drop_font(&mut self)
        requires
            old(self).counted() <= usize::MAX,
        ensures
            final(self).as_reading() == old(self).as_reading().drop_font(),
            final(self).counted() == old(self).counted(),
            final(self).font is None,
    {
        let ghost before = self.as_reading();
        match self.font.take() {
            Some((_, line)) => {
                self.pending.push(line);
                self.ignored = self.ignored + 1;
                assert(text::texts(self.pending@) =~= before.pending.push(line@));
            },
            None => {},
        }
        assert(self.as_reading() =~= before.drop_font());
    }

    fn keep(&mut self, line: String)
        ensures
            final(self).as_reading() == old(self).as_reading().keep(line@),
            final(self).counted() == old(self).counted(),
    {
        let ghost before = self.as_reading();
        self.pending.push(line);
        assert(text::texts(self.pending@) =~= before.pending.push(line@));
    }

    fn ignore(&mut self, line: String)
        requires
            old(self).ignored < usize::MAX,
        ensures
            final(self).as_reading() == old(self).as_reading().ignore(line@),
            final(self).counted() == old(self).counted() + 1,
    {
        let ghost before = self.as_reading();
        self.pending.push(line);
        self.ignored = self.ignored + 1;
        assert(text::texts(self.pending@) =~= before.pending.push(line@));
    }

    /// Take in a further line, without the space around it.
    fn step(&mut self, line: String, base: &str, host: &Host, disk: &Disk)
        requires
            old(self).counted() < usize::MAX,
        ensures
            final(self).as_reading() == old(self).as_reading().step(
                line@,
                Place { base: base@, home: host@.home_text(), disk: disk@ },
            ),
            final(self).counted() <= old(self).counted() + 1,
    {
        let ghost before = self.as_reading();
        let ghost at = Place { base: base@, home: host@.home_text(), disk: disk@ };
        let n: usize = line.as_str().unicode_len();
        if n == 0 {
            if self.items.len() == 0 {
                let ghost h = self.header@;
                let ghost p = self.pending@;
                self.header.append(&mut self.pending);
                assert(text::texts(self.header@) =~= text::texts(h) + text::texts(p));
                assert(text::texts(self.pending@) =~= seq![]);
                assert(self.as_reading() =~= before.step(line@, at));
            }
            return;
        }
        if same_text(line.as_str(), "#EXTM3U") {
            return;
        }
        match strip_prefix(line.as_str(), "#PLAYLIST:") {
            Some(rest) => {
                let t = trimmed(rest.as_str());
                self.title = if t.as_str().unicode_len() > 0 {
                    Some(t)
                } else {
                    None
                };
                assert(self.as_reading() =~= before.step(line@, at));
                return;
            },
            None => {},
        }
        match strip_prefix(line.as_str(), "#VOXFONT:sf=") {
            Some(rest) => {
                self.drop_font();
                let v = trimmed(rest.as_str());
                let exts = sf2_ext_list();
                if name_has_ext(v.as_str(), &exts) {
                    self.font = Some((resolve_text(v.as_str(), base, host, disk), line));
                    assert(self.as_reading() =~= before.step(line@, at));
                } else {
                    self.ignore(line);
                }
                return;
            },
            None => {},
        }
        if line.as_str().get_char(0) == '#' {
            self.keep(line);
            return;
        }
        let exts = midi_ext_list();
        if !name_has_ext(line.as_str(), &exts) {
            self.ignore(line);
            return;
        }
        let midi = resolve_text(line.as_str(), base, host, disk);
        let soundfont = match self.font.take() {
            Some((l, _)) => Some(l),
            None => None,
        };
        let mut extra: Vec<String> = Vec::new();
        extra.append(&mut self.pending);
        let item = Item { midi, soundfont, extra };
        self.items.push(item);
        proof {
            assert(text::texts(extra@) =~= before.pending);
            assert(item_views(self.items@) =~= before.items.push(item@));
            assert(text::texts(self.pending@) =~= seq![]);
            assert(self.as_reading() =~= before.step(line@, at));
        }
    }
}

fn after_bom(body: &str) -> (r: &str)
    ensures
        r@ == without_bom(body@),
{
    let n: usize = body.unicode_len();
    let start: usize = if n > 0 && body.get_char(0) == '\u{feff}' { 1 } else { 0 };
    let r = body.substring_char(start, n);
    assert(r@ =~= without_bom(body@));
    r
}

/// Parse a playlist body. `base` is the directory relative paths resolve from.
pub fn parse(body: &str, base: &str, host: &Host, disk: &Disk) -> (r: Doc)
    ensures
        r@ == parsed(body@, Place { base: base@, home: host@.home_text(), disk: disk@ }),
{
    let ghost at = Place { base: base@, home: host@.home_text(), disk: disk@ };
    let rest = after_bom(body);
    let lines = split_lines(rest);
    let ghost t = text::texts(lines@);
    let mut d = Draft {
        title: None,
        header: Vec::new(),
        items: Vec::new(),
        pending: Vec::new(),
        font: None,
        ignored: 0,
    };
    let mut i: usize = 0;
    assert(t.take(0) =~= seq![]);
    assert(d.as_reading() =~= nothing_read());
    while i < lines.len()
        invariant
            i <= lines@.len(),
            t == text::texts(lines@),
            at == (Place { base: base@, home: host@.home_text(), disk: disk@ }),
            d.as_reading() == reading(t.take(i as int), at),
            d.counted() <= i,
        decreases lines.len() - i,
    {
        proof {
            assert(t.take(i + 1).drop_last() =~= t.take(i as int));
            assert(t.take(i + 1).last() == lines@[i as int]@);
        }
        let line = trimmed(lines[i].as_str());
        d.step(line, base, host, disk);
        i = i + 1;
    }
    assert(t.take(t.len() as int) =~= t);
    d.drop_font();
    Doc {
        title: d.title,
        header: d.header,
        items: d.items,
        trailer: d.pending,
        ignored: d.ignored,
    }
}

/// The fronts of a path, from the `i`-th component on, that may be archives:
/// what [`split_archive`] looks up on the disk.
pub open spec fn zip_fronts(k: paths::PathKey, i: int) -> Seq<Seq<char>>
    decreases k.segs.len() - i,
{
    if i < 0 || i + 1 >= k.segs.len() {
        seq![]
    } else {
        (if vfs::archive_name(k.segs[i]) {
            seq![paths::render(paths::PathKey { root: k.root, segs: k.segs.take(i + 1) })]
        } else {
            seq![]
        }) + zip_fronts(k, i + 1)
    }
}

/// What a location split out of a path depends on: only what stands at the
/// fronts that may be archives.
pub proof fn lemma_zip_fronts(
    k: paths::PathKey,
    i: int,
    a: Map<Seq<char>, FileKind>,
    b: Map<Seq<char>, FileKind>,
)
    requires
        forall|p: Seq<char>| #[trigger]
            zip_fronts(k, i).contains(p) ==> vfs::file_on_disk(a, p) == vfs::file_on_disk(b, p),
    ensures
        split_from(k, a, i) == split_from(k, b, i),
    decreases k.segs.len() - i,
{
    if 0 <= i && i + 1 < k.segs.len() {
        let front = paths::render(paths::PathKey { root: k.root, segs: k.segs.take(i + 1) });
        let here = if vfs::archive_name(k.segs[i]) { seq![front] } else { seq![] };
        let rest = zip_fronts(k, i + 1);
        assert forall|p: Seq<char>| #[trigger] rest.contains(p) implies vfs::file_on_disk(a, p)
            == vfs::file_on_disk(b, p) by {
            let j = choose|j: int| 0 <= j < rest.len() && rest[j] == p;
            assert((here + rest)[here.len() + j] == p);
            assert(zip_fronts(k, i).contains(p));
        }
        lemma_zip_fronts(k, i + 1, a, b);
        if vfs::archive_name(k.segs[i]) {
            assert((here + rest)[0] == front);
            assert(zip_fronts(k, i).contains(front));
        }
    }
}

/// The paths that decide which archive a text in a playlist goes through, for
/// looking them up on the disk.
pub fn disk_probes(s: &str, base: &str, host: &Host) -> (r: Vec<String>)
    ensures
        text::texts(r@) == zip_fronts(resolved_key(s@, base@, host@.home_text()), 0),
{
    let p = resolved_parts(s, base, host);
    let ghost k = p.key();
    let n: usize = p.segs.len();
    let mut r: Vec<String> = Vec::new();
    let mut i: usize = 0;
    assert(text::texts(r@) + zip_fronts(k, 0) =~= zip_fronts(k, 0));
    while n >= 2 && i < n - 1
        invariant
            n == p.segs@.len(),
            k == p.key(),
            i <= n,
            n >= 2 ==> i <= n - 1,
            text::texts(r@) + zip_fronts(k, i as int) == zip_fronts(k, 0),
        decreases n - i,
    {
        assert(k.segs[i as int] == p.segs@[i as int]@);
        let ghost before = text::texts(r@);
        if is_archive(p.segs[i].as_str()) {
            let front = front_of(&p, i + 1);
            r.push(front);
            proof {
                assert(text::texts(r@) =~= before.push(front@));
                assert(before + (seq![front@] + zip_fronts(k, i + 1)) =~= text::texts(r@)
                    + zip_fronts(k, i + 1));
            }
        } else {
            assert(seq![] + zip_fronts(k, i + 1) =~= zip_fronts(k, i + 1));
        }
        i = i + 1;
    }
    assert(text::texts(r@) + zip_fronts(k, i as int) =~= text::texts(r@));
    r
}

/// The path that a line of a playlist names, if it names one: the value of a
/// font directive, or the line itself.
pub open spec fn line_path(line: Seq<char>) -> Seq<char> {
    if text::starts_with(line, sf_directive()) {
        text::trim(line.skip(sf_directive().len() as int))
    } else {
        line
    }
}

/// The paths that decide which archives the lines of a playlist go through.
pub open spec fn lines_probes(
    lines: Seq<Seq<char>>,
    base: Seq<char>,
    home: Seq<char>,
) -> Seq<Seq<char>>
    decreases lines.len(),
{
    if lines.len() == 0 {
        seq![]
    } else {
        lines_probes(lines.drop_last(), base, home) + zip_fronts(
            resolved_key(line_path(text::trim(lines.last())), base, home),
            0,
        )
    }
}

/// What is read of a playlist depends on the disk only at the paths of
/// [`file_probes`]: two disks that agree there give the same list.
pub proof fn lemma_probes_decide(
    lines: Seq<Seq<char>>,
    base: Seq<char>,
    home: Seq<char>,
    a: Map<Seq<char>, FileKind>,
    b: Map<Seq<char>, FileKind>,
)
    requires
        forall|p: Seq<char>| #[trigger]
            lines_probes(lines, base, home).contains(p) ==> vfs::file_on_disk(a, p)
                == vfs::file_on_disk(b, p),
    ensures
        reading(lines, Place { base, home, disk: a }) == reading(
            lines,
            Place { base, home, disk: b },
        ),
    decreases lines.len(),
{
    if lines.len() > 0 {
        let front = lines_probes(lines.drop_last(), base, home);
        let line = text::trim(lines.last());
        let k = resolved_key(line_path(line), base, home);
        let here = zip_fronts(k, 0);
        let all = lines_probes(lines, base, home);
        assert(all == front + here);
        assert forall|p: Seq<char>| #[trigger] front.contains(p) implies vfs::file_on_disk(a, p)
            == vfs::file_on_disk(b, p) by {
            let j = choose|j: int| 0 <= j < front.len() && front[j] == p;
            assert(all[j] == p);
            assert(all.contains(p));
        }
        assert forall|p: Seq<char>| #[trigger] here.contains(p) implies vfs::file_on_disk(a, p)
            == vfs::file_on_disk(b, p) by {
            let j = choose|j: int| 0 <= j < here.len() && here[j] == p;
            assert(all[front.len() + j] == p);
            assert(all.contains(p));
        }
        lemma_probes_decide(lines.drop_last(), base, home, a, b);
        lemma_zip_fronts(k, 0, a, b);
    }
}

/// The paths that decide which archives a playlist goes through, for looking
/// them up on the disk before it is read.
pub fn file_probes(body: &str, base: &str, host: &Host) -> (r: Vec<String>)
    ensures
        text::texts(r@) == lines_probes(
            text::lines(without_bom(body@)),
            base@,
            host@.home_text(),
        ),
{
    let rest = after_bom(body);
    let lines = split_lines(rest);
    let ghost t = text::texts(lines@);
    let mut r: Vec<String> = Vec::new();
    let mut i: usize = 0;
    assert(t.take(0) =~= seq![]);
    assert(text::texts(r@) =~= seq![]);
    while i < lines.len()
        invariant
            i <= lines@.len(),
            t == text::texts(lines@),
            text::texts(r@) == lines_probes(t.take(i as int), base@, host@.home_text()),
        decreases lines.len() - i,
    {
        proof {
            assert(t.take(i + 1).drop_last() =~= t.take(i as int));
            assert(t.take(i + 1).last() == lines@[i as int]@);
        }
        let line = trimmed(lines[i].as_str());
        let path = match strip_prefix(line.as_str(), "#VOXFONT:sf=") {
            Some(v) => trimmed(v.as_str()),
            None => line,
        };
        let mut found = disk_probes(path.as_str(), base, host);
        let ghost before = text::texts(r@);
        let ghost more = text::texts(found@);
        r.append(&mut found);
        assert(text::texts(r@) =~= before + more);
        i = i + 1;
    }
    assert(t.take(t.len() as int) =~= t);
    r
}

/// Put lines at the end of a text.
fn push_lines(out: &mut String, lines: &Vec<String>)
    ensures
        final(out)@ == old(out)@ + conf::unlines(text::texts(lines@)),
{
    let ghost start = out@;
    let ghost t = text::texts(lines@);
    let mut i: usize = 0;
    assert(t.take(0) =~= seq![]);
    assert(out@ =~= start + conf::unlines(t.take(0)));
    while i < lines.len()
        invariant
            i <= lines@.len(),
            t == text::texts(lines@),
            out@ == start + conf::unlines(t.take(i as int)),
        decreases lines.len() - i,
    {
        push_line(out, lines[i].as_str());
        proof {
            assert(t.take(i + 1).drop_last() =~= t.take(i as int));
            assert(t.take(i + 1).last() == lines@[i as int]@);
            assert(out@ =~= start + conf::unlines(t.take(i + 1)));
        }
        i = i + 1;
    }
    assert(t.take(t.len() as int) =~= t);
}

/// One written line.
proof fn lemma_unlines_one(x: Seq<char>)
    ensures
        conf::unlines(seq![x]) == x.push('\n'),
{
    let v = seq![x];
    assert(v.drop_last() =~= seq![]);
    reveal_with_fuel(conf::unlines, 2);
    assert(conf::unlines(v) =~= x.push('\n'));
}

/// Nothing is written of no line, and something of any.
proof fn lemma_unlines_some(v: Seq<Seq<char>>)
    ensures
        conf::unlines(v).len() > 0 <==> v.len() > 0,
{
}

fn names_a_font(line: &str) -> (r: bool)
    ensures
        r == is_pin(line@),
{
    match strip_prefix(line, "#VOXFONT:sf=") {
        Some(rest) => {
            let v = trimmed(rest.as_str());
            let exts = sf2_ext_list();
            name_has_ext(v.as_str(), &exts)
        },
        None => false,
    }
}

fn stops_waiting(lines: &Vec<String>) -> (r: bool)
    ensures
        r == ends_waiting(text::texts(lines@)),
{
    let ghost t = text::texts(lines@);
    let mut i: usize = 0;
    while i < lines.len()
        invariant
            i <= lines@.len(),
            t == text::texts(lines@),
            forall|k: int|
                0 <= k < i ==> !(is_directive(#[trigger] t[k]) && !is_pin(t[k])),
        decreases lines.len() - i,
    {
        let line = lines[i].as_str();
        assert(t[i as int] == line@);
        if begins(line, "#VOXFONT:sf=") && !names_a_font(line) {
            return true;
        }
        i = i + 1;
    }
    false
}

/// Kept lines as text: those that can stand where they are, and those that are
/// written at the end of the file.
fn part_lines(lines: &Vec<String>) -> (r: (String, String))
    ensures
        r.0@ == conf::unlines(tame(text::texts(lines@))),
        r.1@ == conf::unlines(stray(text::texts(lines@))),
{
    let ghost t = text::texts(lines@);
    let mut all = String::new();
    let mut stay = String::new();
    let mut last = String::new();
    let mut i: usize = 0;
    proof {
        assert(t.take(0) =~= seq![]);
        assert(all@ =~= seq![]);
    }
    while i < lines.len()
        invariant
            i <= lines@.len(),
            t == text::texts(lines@),
            all@ == conf::unlines(t.take(i as int)),
            stay@ == conf::unlines(tame(t.take(i as int))),
            last@ == conf::unlines(stray(t.take(i as int))),
        decreases lines.len() - i,
    {
        let line = lines[i].as_str();
        let ghost now = t.take(i + 1);
        let ghost x = line@;
        proof {
            assert(now.drop_last() =~= t.take(i as int));
            assert(now.last() == x);
            assert(tame(t.take(i as int)).push(x).drop_last() =~= tame(t.take(i as int)));
            assert(stray(t.take(i as int)).push(x).drop_last() =~= stray(t.take(i as int)));
        }
        push_line(&mut all, line);
        assert(all@ =~= conf::unlines(now));
        if names_a_font(line) {
            push_line(&mut last, line);
            assert(last@ =~= conf::unlines(stray(now)));
        } else if begins(line, "#VOXFONT:sf=") {
            stay = all.clone();
            last = String::new();
            assert(last@ =~= conf::unlines(stray(now)));
        } else {
            push_line(&mut stay, line);
            assert(stay@ =~= conf::unlines(tame(now)));
        }
        i = i + 1;
    }
    assert(t.take(t.len() as int) =~= t);
    (stay, last)
}

/// Put the lines of an item at the end of a text, and those that are written at
/// the end of the file at the end of another.
fn push_item(out: &mut String, last: &mut String, item: &Item, base: &str)
    ensures
        final(out)@ == old(out)@ + conf::unlines(item_lines(item@, base@)),
        final(last)@ == old(last)@ + conf::unlines(
            if item@.soundfont is Some {
                seq![]
            } else {
                stray(item@.extra)
            },
        ),
{
    let ghost start = out@;
    let ghost late = last@;
    let ghost pin = match item@.soundfont {
        Some(sf) => seq![sf_directive() + path_text(sf, base@)],
        None => seq![],
    };
    match &item.soundfont {
        Some(sf) => {
            push_lines(out, &item.extra);
            let mut line = "#VOXFONT:sf=".to_owned();
            let p = write_path(sf, base);
            line.append(p.as_str());
            push_line(out, line.as_str());
            proof {
                lemma_unlines_one(line@);
                assert(late + conf::unlines(seq![]) =~= late);
            }
        },
        None => {
            let (stay, rest) = part_lines(&item.extra);
            out.append(stay.as_str());
            last.append(rest.as_str());
            assert(conf::unlines(pin) =~= seq![]);
        },
    }
    let p = write_path(&item.midi, base);
    push_line(out, p.as_str());
    proof {
        let kept = notes(item@);
        lemma_unlines_one(p@);
        conf::lemma_unlines_append(kept, pin);
        conf::lemma_unlines_append(kept + pin, seq![p@]);
        assert(out@ =~= start + conf::unlines(item_lines(item@, base@)));
    }
}

// --- the open playlist ------------------------------------------------------

/// The open playlist. The default is an empty, unsaved list with no path.
pub struct Playlist {
    items: Vec<Item>,
    /// A session-only identity for each item, so the queue can follow the
    /// playing item through reorders and removals even when the same track and
    /// font appear more than once.
    ids: Vec<u64>,
    next_id: u64,
    path: Option<String>,
    title: Option<String>,
    header: Vec<String>,
    trailer: Vec<String>,
    /// True when the list differs from the file. Saving is explicit, so this
    /// is what stands between a quit and lost edits.
    dirty: bool,
}

/// The open playlist, as texts and numbers.
#[verifier::ext_equal]
pub struct PlaylistView {
    pub items: Seq<ItemView>,
    pub ids: Seq<u64>,
    pub next_id: u64,
    pub path: Option<Seq<char>>,
    pub title: Option<Seq<char>>,
    pub header: Seq<Seq<char>>,
    pub trailer: Seq<Seq<char>>,
    pub dirty: bool,
}

impl View for Playlist {
    type V = PlaylistView;

    closed spec fn view(&self) -> PlaylistView {
        PlaylistView {
            items: item_views(self.items@),
            ids: self.ids@,
            next_id: self.next_id,
            path: history::opt_text(self.path),
            title: history::opt_text(self.title),
            header: text::texts(self.header@),
            trailer: text::texts(self.trailer@),
            dirty: self.dirty,
        }
    }
}

impl PlaylistView {
    /// Every item has an identity of its own, given out before.
    pub open spec fn wf(self) -> bool {
        &&& self.ids.len() == self.items.len()
        &&& forall|i: int| 0 <= i < self.ids.len() ==> #[trigger] self.ids[i] < self.next_id
        &&& forall|i: int, j: int|
            0 <= i < j < self.ids.len() ==> #[trigger] self.ids[i] != #[trigger] self.ids[j]
    }

    /// With an item at the end, under the next identity.
    pub open spec fn with_item(self, item: ItemView) -> PlaylistView {
        PlaylistView {
            items: self.items.push(item),
            ids: self.ids.push(self.next_id),
            next_id: (self.next_id + 1) as u64,
            ..self
        }
    }

    /// The document this list is written as.
    pub open spec fn doc(self) -> DocView {
        DocView {
            title: self.title,
            header: self.header,
            items: self.items,
            trailer: self.trailer,
            ignored: 0,
        }
    }

    /// The name to show: the title, else the file's name, else "untitled".
    pub open spec fn name(self) -> Seq<char> {
        match (self.title, self.path) {
            (Some(t), _) => t,
            (None, Some(p)) => match paths::file_name(p) {
                Some(n) => raw::shown(n),
                None => seq![],
            },
            (None, None) => "untitled"@,
        }
    }
}

/// An empty list with no path.
pub open spec fn empty_list() -> PlaylistView {
    PlaylistView {
        items: seq![],
        ids: seq![],
        next_id: 0,
        path: None,
        title: None,
        header: seq![],
        trailer: seq![],
        dirty: false,
    }
}

/// The list read from a file at `path` that holds `body`: its items under the
/// identities 0, 1, 2, ...
pub open spec fn loaded(path: Seq<char>, d: DocView) -> PlaylistView {
    PlaylistView {
        items: d.items,
        ids: Seq::new(d.items.len(), |i: int| i as u64),
        next_id: d.items.len() as u64,
        path: Some(path),
        title: d.title,
        header: d.header,
        trailer: d.trailer,
        dirty: false,
    }
}

/// Where the item with identity `id` is, or the length of `ids`.
pub open spec fn find_id(ids: Seq<u64>, id: u64) -> int
    decreases ids.len(),
{
    if ids.len() == 0 {
        0
    } else if ids[0] == id {
        0
    } else {
        1 + find_id(ids.drop_first(), id)
    }
}

pub proof fn lemma_find_id(ids: Seq<u64>, id: u64)
    ensures
        0 <= find_id(ids, id) <= ids.len(),
        find_id(ids, id) < ids.len() ==> ids[find_id(ids, id)] == id,
        forall|i: int| 0 <= i < find_id(ids, id) ==> #[trigger] ids[i] != id,
    decreases ids.len(),
{
    if ids.len() > 0 && ids[0] != id {
        let t = ids.drop_first();
        lemma_find_id(t, id);
        assert forall|i: int| 0 <= i < find_id(ids, id) implies #[trigger] ids[i] != id by {
            if i > 0 {
                assert(ids[i] == t[i - 1]);
            }
        }
    }
}

pub proof fn lemma_find_id_is(ids: Seq<u64>, id: u64, n: int)
    requires
        0 <= n <= ids.len(),
        n < ids.len() ==> ids[n] == id,
        forall|i: int| 0 <= i < n ==> #[trigger] ids[i] != id,
    ensures
        find_id(ids, id) == n,
{
    lemma_find_id(ids, id);
    let f = find_id(ids, id);
    if f < n {
        assert(ids[f] == id);
    }
    if n < f {
        assert(ids[n] != id);
    }
}

/// How often an item was played, through its own font or the user's.
pub open spec fn item_plays(
    i: ItemView,
    log: Seq<history::EntryView>,
    user_font: Option<LocView>,
) -> u32 {
    match (i.soundfont, user_font) {
        (Some(sf), _) => history::pair_plays(log, i.midi, sf),
        (None, Some(sf)) => history::pair_plays(log, i.midi, sf),
        (None, None) => 0,
    }
}

/// The row of the item at position `i`.
pub open spec fn item_row(
    item: ItemView,
    i: int,
    log: Seq<history::EntryView>,
    user_font: Option<LocView>,
    disk: Map<Seq<char>, FileKind>,
) -> RowView {
    RowView {
        midi: Some(item.midi),
        soundfont: item.soundfont,
        when: 0,
        plays: item_plays(item, log, user_font),
        idxs: seq![i as usize],
        gone: history::gone(Some(item.midi), item.soundfont, disk),
    }
}

/// One row per item, in list order.
pub open spec fn item_rows(
    s: Seq<ItemView>,
    log: Seq<history::EntryView>,
    user_font: Option<LocView>,
    disk: Map<Seq<char>, FileKind>,
) -> Seq<RowView> {
    s.map(|i: int, item: ItemView| item_row(item, i, log, user_font, disk))
}

impl Default for Playlist {
    fn default() -> (r: Playlist)
        ensures
            r@ == empty_list(),
            r@.wf(),
    {
        let r = Playlist {
            items: Vec::new(),
            ids: Vec::new(),
            next_id: 0,
            path: None,
            title: None,
            header: Vec::new(),
            trailer: Vec::new(),
            dirty: false,
        };
        assert(r@ =~= empty_list());
        r
    }
}

impl Playlist {
    /// The playlist at `path`, whose file holds `body` (or could not be read,
    /// for the reason given). Returns it with the number of lines that were
    /// kept but not acted on, for the status line.
    pub fn load(path: &str, body: Result<String, String>, host: &Host, disk: &Disk) -> (r: Result<
        (Playlist, usize),
        String,
    >)
        ensures
            ({
                let p = host::absolute_text(path@, host@.cwd);
                match body {
                    Ok(b) => {
                        let d = parsed(
                            b@,
                            Place {
                                base: vfs::dir_of(p),
                                home: host@.home_text(),
                                disk: disk@,
                            },
                        );
                        r matches Ok((list, ignored)) && list@ == loaded(p, d) && list@.wf()
                            && ignored == d.ignored
                    },
                    Err(e) => r matches Err(m) && m@ == "Cannot read "@ + raw::shown(p) + ": "@ + e@,
                }
            }),
    {
        let p = absolute(path, host);
        match body {
            Ok(b) => {
                let base = base_dir(p.as_str());
                let d = parse(b.as_str(), base.as_str(), host, disk);
                let ghost v = d@;
                let n: usize = d.items.len();
                let mut ids: Vec<u64> = Vec::new();
                let mut i: usize = 0;
                while i < n
                    invariant
                        i <= n,
                        ids@.len() == i,
                        forall|k: int| 0 <= k < i ==> #[trigger] ids@[k] == k,
                    decreases n - i,
                {
                    ids.push(i as u64);
                    i = i + 1;
                }
                let list = Playlist {
                    items: d.items,
                    ids,
                    next_id: n as u64,
                    path: Some(p),
                    title: d.title,
                    header: d.header,
                    trailer: d.trailer,
                    dirty: false,
                };
                assert(list@ =~= loaded(p@, v));
                Ok((list, d.ignored))
            },
            Err(e) => {
                let mut m = "Cannot read ".to_owned();
                let shown = shown_text(p.as_str());
                m.append(shown.as_str());
                m.append(": ");
                m.append(e.as_str());
                Err(m)
            },
        }
    }

    /// What is to be written to save the list to its own file.
    pub fn save(&self, host: &Host) -> (r: Result<Writing, String>)
        ensures
            match self@.path {
                Some(p) => r matches Ok(w) && w.path@ == host::absolute_text(p, host@.cwd)
                    && w.body@ == conf::unlines(doc_lines(self@.doc(), vfs::dir_of(w.path@))),
                None => r matches Err(m) && m@ == "The playlist has no file yet"@,
            },
    {
        match &self.path {
            Some(p) => Ok(self.save_as(p.as_str(), host)),
            None => Err("The playlist has no file yet".to_owned()),
        }
    }

    /// What is to be written to save the list to `path`. Relative paths inside
    /// are computed against that place.
    pub fn save_as(&self, path: &str, host: &Host) -> (r: Writing)
        ensures
            r.path@ == host::absolute_text(path@, host@.cwd),
            r.body@ == conf::unlines(doc_lines(self@.doc(), vfs::dir_of(r.path@))),
    {
        let p = absolute(path, host);
        let base = base_dir(p.as_str());
        let body = self.serialize(base.as_str());
        Writing { path: p, body }
    }

    /// The list has been written to `path`, which is its file from now on.
    pub fn saved(&mut self, path: String)
        ensures
            final(self)@ == (PlaylistView { path: Some(path@), dirty: false, ..old(self)@ }),
    {
        self.path = Some(path);
        self.dirty = false;
    }

    pub fn path(&self) -> (r: Option<&String>)
        ensures
            match self@.path {
                Some(p) => r matches Some(x) && x@ == p,
                None => r is None,
            },
    {
        match &self.path {
            Some(p) => Some(p),
            None => None,
        }
    }

    pub fn is_dirty(&self) -> (r: bool)
        ensures
            r == self@.dirty,
    {
        self.dirty
    }

    /// The name to show: the file's `#PLAYLIST:` title, else its file name.
    pub fn name(&self) -> (r: String)
        ensures
            r@ == self@.name(),
    {
        match &self.title {
            Some(t) => {
                return t.clone();
            },
            None => {},
        }
        match &self.path {
            Some(p) => match file_name_of(p.as_str()) {
                Some(n) => shown_text(n.as_str()),
                None => {
                    let r = String::new();
                    assert(r@ =~= seq![]);
                    r
                },
            },
            None => "untitled".to_owned(),
        }
    }

    pub fn len(&self) -> (r: usize)
        ensures
            r == self@.items.len(),
    {
        self.items.len()
    }

    pub fn is_empty(&self) -> (r: bool)
        ensures
            r == (self@.items.len() == 0),
    {
        self.items.len() == 0
    }

    pub fn get(&self, idx: usize) -> (r: Option<&Item>)
        ensures
            match r {
                Some(i) => idx < self@.items.len() && i@ == self@.items[idx as int],
                None => idx >= self@.items.len(),
            },
    {
        if idx < self.items.len() {
            Some(&self.items[idx])
        } else {
            None
        }
    }

    /// The session identity of the item at `idx`.
    pub fn id_at(&self, idx: usize) -> (r: Option<u64>)
        ensures
            r == if idx < self@.ids.len() {
                Some(self@.ids[idx as int])
            } else {
                None
            },
    {
        if idx < self.ids.len() {
            Some(self.ids[idx])
        } else {
            None
        }
    }

    /// Where the item with identity `id` sits now, if it is still in the list.
    pub fn position_of(&self, id: u64) -> (r: Option<usize>)
        ensures
            match r {
                Some(i) => i == find_id(self@.ids, id) && i < self@.ids.len(),
                None => find_id(self@.ids, id) >= self@.ids.len(),
            },
    {
        let mut i: usize = 0;
        while i < self.ids.len()
            invariant
                i <= self.ids@.len(),
                forall|k: int| 0 <= k < i ==> #[trigger] self.ids@[k] != id,
            decreases self.ids.len() - i,
        {
            if self.ids[i] == id {
                proof {
                    lemma_find_id_is(self.ids@, id, i as int);
                }
                return Some(i);
            }
            i = i + 1;
        }
        proof {
            lemma_find_id_is(self.ids@, id, i as int);
        }
        None
    }

    /// Whether another item can be told apart from all the list has held.
    pub fn has_room(&self) -> (r: bool)
        ensures
            r == (self@.next_id < u64::MAX),
    {
        self.next_id < u64::MAX
    }

    /// Append a track, with a SoundFont of its own or without one. Locations
    /// are made absolute, so a panel opened on a relative directory still
    /// writes paths that resolve from wherever the playlist file is.
    pub fn push(&mut self, midi: Location, soundfont: Option<Location>, host: &Host)
        requires
            old(self)@.wf(),
            old(self)@.next_id < u64::MAX,
        ensures
            final(self)@.wf(),
            final(self)@ == (PlaylistView {
                dirty: true,
                ..old(self)@.with_item(
                    ItemView {
                        midi: absolute_view(midi@, host@.cwd),
                        soundfont: match vfs::opt_view(soundfont) {
                            Some(l) => Some(absolute_view(l, host@.cwd)),
                            None => None,
                        },
                        extra: seq![],
                    },
                )
            }),
    {
        let ghost before = self@;
        let item = Item {
            midi: absolute_loc(&midi, host),
            soundfont: match soundfont {
                Some(l) => Some(absolute_loc(&l, host)),
                None => None,
            },
            extra: Vec::new(),
        };
        assert(item@.extra =~= seq![]);
        self.items.push(item);
        self.ids.push(self.next_id);
        self.next_id = self.next_id + 1;
        self.dirty = true;
        proof {
            assert(self@.items =~= before.items.push(item@));
            assert(self@.ids =~= before.ids.push(before.next_id));
        }
    }

    /// Drop the item at `idx`.
    pub fn remove(&mut self, idx: usize)
        requires
            old(self)@.wf(),
        ensures
            final(self)@.wf(),
            final(self)@ == if idx < old(self)@.items.len() {
                PlaylistView {
                    items: old(self)@.items.remove(idx as int),
                    ids: old(self)@.ids.remove(idx as int),
                    dirty: true,
                    ..old(self)@
                }
            } else {
                old(self)@
            },
    {
        if idx < self.items.len() {
            let ghost before = self@;
            self.items.remove(idx);
            self.ids.remove(idx);
            self.dirty = true;
            proof {
                assert(self@.items =~= before.items.remove(idx as int));
                lemma_remove_wf(before, idx as int);
            }
        }
    }

    /// Exchange two items, which is how the overlay reorders the list.
    pub fn swap(&mut self, a: usize, b: usize)
        requires
            old(self)@.wf(),
        ensures
            final(self)@.wf(),
            final(self)@ == if a < old(self)@.items.len() && b < old(self)@.items.len() && a != b {
                PlaylistView {
                    items: favourites::swapped(old(self)@.items, a as int, b as int),
                    ids: favourites::swapped(old(self)@.ids, a as int, b as int),
                    dirty: true,
                    ..old(self)@
                }
            } else {
                old(self)@
            },
    {
        let n: usize = self.items.len();
        if a < n && b < n && a != b {
            let ghost before = self@;
            let x = self.items[a].clone();
            let y = self.items[b].clone();
            self.items.set(a, y);
            self.items.set(b, x);
            let i = self.ids[a];
            let j = self.ids[b];
            self.ids.set(a, j);
            self.ids.set(b, i);
            self.dirty = true;
            proof {
                assert(self@.items =~= favourites::swapped(before.items, a as int, b as int));
                assert(self@.ids =~= favourites::swapped(before.ids, a as int, b as int));
                lemma_swap_wf(before, a as int, b as int);
            }
        }
    }

    /// Pin a SoundFont to the item at `idx`, or (with `None`) unpin it so it
    /// plays through the user's font. Pinning the font it has changes nothing.
    pub fn set_font(&mut self, idx: usize, soundfont: Option<Location>, host: &Host)
        requires
            old(self)@.wf(),
        ensures
            final(self)@.wf(),
            final(self)@ == with_font(
                old(self)@,
                idx as int,
                match vfs::opt_view(soundfont) {
                    Some(l) => Some(absolute_view(l, host@.cwd)),
                    None => None,
                },
            ),
    {
        if idx < self.items.len() {
            let ghost before = self@;
            let new = match soundfont {
                Some(l) => Some(absolute_loc(&l, host)),
                None => None,
            };
            if !same_opt(&self.items[idx].soundfont, &new) {
                let mut item = self.items[idx].clone();
                item.soundfont = new;
                self.items.set(idx, item);
                self.dirty = true;
                assert(self@.items =~= before.items.update(
                    idx as int,
                    ItemView { soundfont: vfs::opt_view(new), ..before.items[idx as int] },
                ));
            }
        }
    }

    /// Build the displayed rows, keeping only those matching the
    /// case-insensitive `filter`. `user_font` is what an item without a font
    /// plays through, used to look up its play count; the row itself keeps
    /// `soundfont: None` so the overlay can say so.
    pub fn rows(
        &self,
        filter: &str,
        history: &History,
        user_font: &Option<Location>,
        disk: &Disk,
    ) -> (r: Vec<Row>)
        ensures
            history::row_views(r@) == history::filtered(
                item_rows(self@.items, history@.entries, vfs::opt_view(*user_font), disk@),
                filter@,
            ),
    {
        let mut out: Vec<Row> = Vec::new();
        let mut i: usize = 0;
        let ghost s = self@.items;
        let ghost uf = vfs::opt_view(*user_font);
        while i < self.items.len()
            invariant
                i <= self.items@.len(),
                s == item_views(self.items@),
                uf == vfs::opt_view(*user_font),
                out@.len() == i,
                forall|k: int|
                    0 <= k < i ==> (#[trigger] out@[k])@ == item_row(
                        s[k],
                        k,
                        history@.entries,
                        uf,
                        disk@,
                    ),
            decreases self.items.len() - i,
        {
            let item = &self.items[i];
            assert(s[i as int] == item@);
            let midi = Some(item.midi.clone());
            let soundfont = clone_loc(&item.soundfont);
            let plays: u32 = match (&item.soundfont, user_font) {
                (Some(sf), _) => history.plays_of(&item.midi, sf),
                (None, Some(sf)) => history.plays_of(&item.midi, sf),
                (None, None) => 0,
            };
            let mut idxs: Vec<usize> = Vec::new();
            idxs.push(i);
            let row = Row {
                when: 0,
                plays,
                idxs,
                gone: is_gone(&midi, &soundfont, disk),
                midi,
                soundfont,
            };
            assert(row@.idxs =~= seq![i]);
            out.push(row);
            i = i + 1;
        }
        assert(history::row_views(out@) =~= item_rows(s, history@.entries, uf, disk@));
        filter_rows(out, filter)
    }

    fn top_is_safe(&self) -> (r: bool)
        ensures
            r == top_is_safe(item_views(self.items@)),
    {
        if self.items.len() == 0 {
            return true;
        }
        let first = &self.items[0];
        assert(item_views(self.items@)[0] == first@);
        first.soundfont.is_some() || stops_waiting(&first.extra)
    }

    /// Render the file, with paths relative to `base` where they are below it.
    pub fn serialize(&self, base: &str) -> (r: String)
        ensures
            r@ == conf::unlines(doc_lines(self@.doc(), base@)),
    {
        let ghost d = self@.doc();
        let mut out = String::new();
        push_line(&mut out, "#EXTM3U");
        let ghost first = seq!["#EXTM3U"@];
        proof {
            lemma_unlines_one("#EXTM3U"@);
            assert(out@ =~= conf::unlines(first));
        }
        let ghost titled = match d.title {
            Some(t) => seq![title_directive() + t],
            None => seq![],
        };
        match &self.title {
            Some(t) => {
                let mut line = "#PLAYLIST:".to_owned();
                line.append(t.as_str());
                push_line(&mut out, line.as_str());
                proof {
                    lemma_unlines_one(line@);
                }
            },
            None => {
                assert(conf::unlines(titled) =~= seq![]);
            },
        }
        proof {
            conf::lemma_unlines_append(first, titled);
            assert(out@ =~= conf::unlines(first + titled));
        }
        let ghost kept = top_notes(d.header, d.items);
        let (stay, rest) = if self.top_is_safe() {
            let mut all = String::new();
            push_lines(&mut all, &self.header);
            (all, String::new())
        } else {
            part_lines(&self.header)
        };
        out.append(stay.as_str());
        let mut last = rest;
        proof {
            assert(stay@ =~= conf::unlines(kept));
            assert(last@ =~= conf::unlines(top_stray(d.header, d.items)));
            conf::lemma_unlines_append(first + titled, kept);
            lemma_unlines_some(kept);
        }
        let ghost blank = if kept.len() > 0 {
            seq![Seq::<char>::empty()]
        } else {
            seq![]
        };
        if stay.as_str().unicode_len() > 0 {
            let empty = String::new();
            push_line(&mut out, empty.as_str());
            proof {
                assert(empty@ =~= Seq::<char>::empty());
                lemma_unlines_one(empty@);
            }
        } else {
            assert(conf::unlines(blank) =~= seq![]);
        }
        let ghost top = top_lines(d.title, kept);
        let ghost head = top_stray(d.header, d.items);
        proof {
            conf::lemma_unlines_append(first + titled + kept, blank);
            assert(out@ =~= conf::unlines(top));
            assert(top + items_lines(d.items, 0, base@) =~= top);
            assert(head + items_stray(d.items, 0) =~= head);
        }
        let mut i: usize = 0;
        while i < self.items.len()
            invariant
                i <= self.items@.len(),
                d.items == item_views(self.items@),
                out@ == conf::unlines(top + items_lines(d.items, i as int, base@)),
                last@ == conf::unlines(head + items_stray(d.items, i as int)),
            decreases self.items.len() - i,
        {
            let item = &self.items[i];
            assert(d.items[i as int] == item@);
            let ghost before = top + items_lines(d.items, i as int, base@);
            let ghost late = head + items_stray(d.items, i as int);
            push_item(&mut out, &mut last, item, base);
            proof {
                conf::lemma_unlines_append(before, item_lines(item@, base@));
                assert(before + item_lines(item@, base@) =~= top + items_lines(
                    d.items,
                    i + 1,
                    base@,
                ));
                let more = if item@.soundfont is Some { seq![] } else { stray(item@.extra) };
                conf::lemma_unlines_append(late, more);
                assert(late + more =~= head + items_stray(d.items, i + 1));
            }
            i = i + 1;
        }
        push_lines(&mut out, &self.trailer);
        out.append(last.as_str());
        proof {
            let n = d.items.len() as int;
            let body = top + items_lines(d.items, n, base@);
            let late = head + items_stray(d.items, n);
            conf::lemma_unlines_append(body, d.trailer);
            conf::lemma_unlines_append(body + d.trailer, late);
            assert(body + d.trailer + late =~= doc_lines(d, base@));
        }
        out
    }
}

/// A list with the font of the item at `idx` set, when that is another one.
pub open spec fn with_font(p: PlaylistView, idx: int, font: Option<LocView>) -> PlaylistView {
    if 0 <= idx < p.items.len() && vfs::opt_key(p.items[idx].soundfont) != vfs::opt_key(font) {
        PlaylistView {
            items: p.items.update(idx, ItemView { soundfont: font, ..p.items[idx] }),
            dirty: true,
            ..p
        }
    } else {
        p
    }
}

proof fn lemma_remove_wf(p: PlaylistView, idx: int)
    requires
        p.wf(),
        0 <= idx < p.items.len(),
    ensures
        (PlaylistView { items: p.items.remove(idx), ids: p.ids.remove(idx), dirty: true, ..p }).wf(),
{
    let ids = p.ids.remove(idx);
    assert forall|i: int| 0 <= i < ids.len() implies #[trigger] ids[i] < p.next_id by {
        let i2 = if i < idx { i } else { i + 1 };
        assert(ids[i] == p.ids[i2]);
    }
    assert forall|i: int, j: int| 0 <= i < j < ids.len() implies #[trigger] ids[i]
        != #[trigger] ids[j] by {
        let i2 = if i < idx { i } else { i + 1 };
        let j2 = if j < idx { j } else { j + 1 };
        assert(ids[i] == p.ids[i2] && ids[j] == p.ids[j2]);
    }
}

proof fn lemma_swap_wf(p: PlaylistView, a: int, b: int)
    requires
        p.wf(),
        0 <= a < p.items.len(),
        0 <= b < p.items.len(),
        a != b,
    ensures
        (PlaylistView {
            items: favourites::swapped(p.items, a, b),
            ids: favourites::swapped(p.ids, a, b),
            dirty: true,
            ..p
        }).wf(),
{
    let ids = favourites::swapped(p.ids, a, b);
    assert forall|i: int| 0 <= i < ids.len() implies #[trigger] ids[i] < p.next_id by {
        let i2 = if i == a {
            b
        } else if i == b {
            a
        } else {
            i
        };
        assert(ids[i] == p.ids[i2]);
    }
    assert forall|i: int, j: int| 0 <= i < j < ids.len() implies #[trigger] ids[i]
        != #[trigger] ids[j] by {
        let i2 = if i == a {
            b
        } else if i == b {
            a
        } else {
            i
        };
        let j2 = if j == a {
            b
        } else if j == b {
            a
        } else {
            j
        };
        assert(ids[i] == p.ids[i2] && ids[j] == p.ids[j2]);
        if i2 < j2 {
            assert(p.ids[i2] != p.ids[j2]);
        } else {
            assert(p.ids[j2] != p.ids[i2]);
        }
    }
}

} // verus!
