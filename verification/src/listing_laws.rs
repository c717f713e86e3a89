//! Which files are music, SoundFonts and playlists, and what the panels list
//! of them.

use crate::app;
use crate::ascii;
use crate::browser;
use crate::browser::{BrowserView, EntryView};
use crate::browser_laws;
use crate::paths;
use crate::playlist;
use crate::playlist::{ItemView, Place, Reading};
use crate::sorting;
use crate::text;
use crate::vfs::{ChildView, LocView};
use vstd::prelude::*;

verus! {

// --- extensions -------------------------------------------------------------

/// The extension of a name in lower case, by the ASCII letters or by all.
pub open spec fn kind_of(name: Seq<char>, ascii_only: bool) -> Option<Seq<char>> {
    match paths::extension(name) {
        Some(e) => Some(
            if ascii_only {
                ascii::lower_ascii(e)
            } else {
                text::lower(e)
            },
        ),
        None => None,
    }
}

/// A MIDI file ends in `.mid`, `.midi`, `.kar` or `.rmi`.
pub open spec fn is_midi_name(name: Seq<char>, ascii_only: bool) -> bool {
    let k = kind_of(name, ascii_only);
    k == Some("mid"@) || k == Some("midi"@) || k == Some("kar"@) || k == Some("rmi"@)
}

/// A SoundFont ends in `.sf2` or `.sf3`.
pub open spec fn is_font_name(name: Seq<char>, ascii_only: bool) -> bool {
    let k = kind_of(name, ascii_only);
    k == Some("sf2"@) || k == Some("sf3"@)
}

/// A playlist ends in `.m3u` or `.m3u8`.
pub open spec fn is_playlist_name(name: Seq<char>, ascii_only: bool) -> bool {
    let k = kind_of(name, ascii_only);
    k == Some("m3u"@) || k == Some("m3u8"@)
}

/// The extensions are in small letters.
proof fn lemma_small()
    ensures
        forall|x: Seq<char>|
            x == "mid"@ || x == "midi"@ || x == "kar"@ || x == "rmi"@ || x == "sf2"@ || x
                == "sf3"@ || x == "m3u"@ || x == "m3u8"@ ==> #[trigger] ascii::lower_ascii(x) == x
                && text::lower(x) == x,
{
    reveal_strlit("mid");
    reveal_strlit("midi");
    reveal_strlit("kar");
    reveal_strlit("rmi");
    reveal_strlit("sf2");
    reveal_strlit("sf3");
    reveal_strlit("m3u");
    reveal_strlit("m3u8");
    assert forall|x: Seq<char>|
        x == "mid"@ || x == "midi"@ || x == "kar"@ || x == "rmi"@ || x == "sf2"@ || x == "sf3"@
            || x == "m3u"@ || x == "m3u8"@ implies #[trigger] ascii::lower_ascii(x) == x
        && text::lower(x) == x by {
        assert(ascii::lower_ascii(x) =~= x);
    }
}

/// Whether a name is that of a MIDI file, a SoundFont or a playlist, whatever
/// its letter case.
pub proof fn lemma_extensions(name: Seq<char>)
    ensures
        playlist::has_ext(name, playlist::midi_exts()) <==> is_midi_name(name, true),
        playlist::has_ext(name, playlist::sf2_exts()) <==> is_font_name(name, true),
        playlist::has_ext(name, playlist::playlist_exts()) <==> is_playlist_name(name, true),
        browser::ext_among(name, browser::lowered(playlist::midi_exts())) <==> is_midi_name(
            name,
            false,
        ),
        browser::ext_among(name, browser::lowered(playlist::sf2_exts())) <==> is_font_name(
            name,
            false,
        ),
        browser::ext_among(name, browser::lowered(playlist::playlist_exts()))
            <==> is_playlist_name(name, false),
{
    lemma_small();
    let m = playlist::midi_exts();
    let f = playlist::sf2_exts();
    let p = playlist::playlist_exts();
    assert(m[0] == "mid"@ && m[1] == "midi"@ && m[2] == "kar"@ && m[3] == "rmi"@);
    assert(f[0] == "sf2"@ && f[1] == "sf3"@);
    assert(p[0] == "m3u"@ && p[1] == "m3u8"@);
    let lm = browser::lowered(m);
    let lf = browser::lowered(f);
    let lp = browser::lowered(p);
    assert(lm =~= seq![
        text::lower("mid"@),
        text::lower("midi"@),
        text::lower("kar"@),
        text::lower("rmi"@),
    ]);
    assert(ascii::lower_ascii("mid"@) == "mid"@ && ascii::lower_ascii("midi"@) == "midi"@
        && ascii::lower_ascii("kar"@) == "kar"@ && ascii::lower_ascii("rmi"@) == "rmi"@);
    assert(ascii::lower_ascii("sf2"@) == "sf2"@ && ascii::lower_ascii("sf3"@) == "sf3"@);
    assert(ascii::lower_ascii("m3u"@) == "m3u"@ && ascii::lower_ascii("m3u8"@) == "m3u8"@);
    assert(lm[0] == "mid"@ && lm[1] == "midi"@ && lm[2] == "kar"@ && lm[3] == "rmi"@);
    assert(lf[0] == "sf2"@ && lf[1] == "sf3"@);
    assert(lp[0] == "m3u"@ && lp[1] == "m3u8"@);
}

// --- the panels at launch ---------------------------------------------------

/// True for a name that starts with a dot.
pub open spec fn is_hidden(name: Seq<char>) -> bool {
    name.len() > 0 && name[0] == '.'
}

/// True when `e` shows the child `c`, with the length of a file on disk where
/// lengths are shown.
pub open spec fn shows(e: EntryView, c: ChildView, lengths: bool) -> bool {
    &&& e.name == c.name && e.loc == c.loc && e.is_dir == c.is_dir && e.size == c.size
    &&& !e.is_parent
    &&& e.length == if lengths && !c.is_dir && c.loc is Fs {
        c.length
    } else {
        None
    }
}

/// True when `files` shows all of the children that are `wanted`, and nothing
/// else but the entry of the parent.
pub open spec fn shows_exactly(
    files: Seq<EntryView>,
    children: Seq<ChildView>,
    lengths: bool,
    wanted: spec_fn(ChildView) -> bool,
) -> bool {
    &&& forall|c: ChildView|
        #[trigger] children.contains(c) && wanted(c) ==> exists|i: int|
            0 <= i < files.len() && #[trigger] shows(files[i], c, lengths)
    &&& forall|i: int|
        0 <= i < files.len() && !(#[trigger] files[i]).is_parent ==> exists|c: ChildView|
            children.contains(c) && wanted(c) && #[trigger] shows(files[i], c, lengths)
}

proof fn lemma_shows_exactly(
    b: BrowserView,
    children: Seq<ChildView>,
    wanted: spec_fn(ChildView) -> bool,
)
    requires
        forall|c: ChildView| #[trigger] wanted(c) <==> b.lists_dir(c) || b.lists_file(c),
    ensures
        shows_exactly(b.listing(children), children, b.compute_duration, wanted),
{
    let files = b.listing(children);
    let d = b.compute_duration;
    assert forall|c: ChildView| #[trigger] children.contains(c) && wanted(c) implies exists|i: int|
        0 <= i < files.len() && #[trigger] shows(files[i], c, d) by {
        let e = browser::row_of(c, d);
        browser_laws::lemma_listing(b, children, e);
        let i = choose|i: int| 0 <= i < files.len() && files[i] == e;
        assert(shows(files[i], c, d));
    }
    assert forall|i: int| 0 <= i < files.len() && !(#[trigger] files[i]).is_parent implies exists|
        c: ChildView,
    | children.contains(c) && wanted(c) && #[trigger] shows(files[i], c, d) by {
        let e = files[i];
        browser_laws::lemma_listing(b, children, e);
        assert(files.contains(e));
        let c = choose|c: ChildView|
            children.contains(c) && (b.lists_dir(c) || b.lists_file(c)) && e
                == #[trigger] browser::row_of(c, d);
        assert(wanted(c));
        assert(shows(files[i], c, d));
    }
}

proof fn lemma_playable_exactly(
    b: BrowserView,
    children: Seq<ChildView>,
    wanted: spec_fn(ChildView) -> bool,
)
    requires
        forall|c: ChildView| #[trigger] wanted(c) <==> b.lists_playable(c),
    ensures
        shows_exactly(b.playable(children), children, b.compute_duration, wanted),
{
    let pred = |c: ChildView| b.lists_playable(c);
    let d = b.compute_duration;
    let rows = browser::rows_of(children.filter(pred), d);
    let files = b.playable(children);
    browser_laws::lemma_by_name(rows);
    assert forall|c: ChildView| #[trigger] children.contains(c) && wanted(c) implies exists|i: int|
        0 <= i < files.len() && #[trigger] shows(files[i], c, d) by {
        let e = browser::row_of(c, d);
        browser_laws::lemma_picked(children, pred, d, e);
        assert(pred(c));
        assert(files.contains(e));
        let i = choose|i: int| 0 <= i < files.len() && files[i] == e;
        assert(shows(files[i], c, d));
    }
    assert forall|i: int| 0 <= i < files.len() && !(#[trigger] files[i]).is_parent implies exists|
        c: ChildView,
    | children.contains(c) && wanted(c) && #[trigger] shows(files[i], c, d) by {
        let e = files[i];
        browser_laws::lemma_picked(children, pred, d, e);
        assert(files.contains(e));
        let c = choose|c: ChildView|
            children.contains(c) && pred(c) && e == #[trigger] browser::row_of(c, d);
        assert(wanted(c));
        assert(shows(files[i], c, d));
    }
}

/// The MIDI panel of a new application lists the directories, the MIDI files
/// and the playlists that are not hidden, and nothing else; of those the MIDI
/// files are what plays.
pub proof fn lemma_midi_panel(dir: LocView, children: Seq<ChildView>)
    ensures
        ({
            let b = app::midi_panel(dir, children);
            &&& b.dir == dir
            &&& shows_exactly(
                b.entries,
                children,
                true,
                |c: ChildView|
                    !is_hidden(c.name) && (c.is_dir || is_midi_name(c.name, false)
                        || is_playlist_name(c.name, false)),
            )
            &&& shows_exactly(
                b.playable(children),
                children,
                true,
                |c: ChildView| !is_hidden(c.name) && !c.is_dir && is_midi_name(c.name, false),
            )
            &&& b.allow_archives
        }),
{
    let b = app::midi_panel(dir, children);
    let one = BrowserView {
        also: browser::lowered(playlist::playlist_exts()),
        ..app::bare_panel(dir, playlist::midi_exts(), true, true).refreshed(children)
    };
    assert forall|c: ChildView|
        #![trigger b.lists_file(c)]
        #![trigger b.lists_playable(c)]
        #![trigger one.lists_file(c)]
        (b.lists_file(c) <==> !is_hidden(c.name) && !c.is_dir && (is_midi_name(c.name, false)
            || is_playlist_name(c.name, false))) && (one.lists_file(c) <==> b.lists_file(c)) && (
        b.lists_playable(c) <==> !is_hidden(c.name) && !c.is_dir && is_midi_name(c.name, false))
        by {
        lemma_extensions(c.name);
    }
    lemma_shows_exactly(
        one,
        children,
        |c: ChildView|
            !is_hidden(c.name) && (c.is_dir || is_midi_name(c.name, false) || is_playlist_name(
                c.name,
                false,
            )),
    );
    assert(b.entries == one.listing(children));
    lemma_playable_exactly(
        b,
        children,
        |c: ChildView| !is_hidden(c.name) && !c.is_dir && is_midi_name(c.name, false),
    );
}

/// The SoundFont panel of a new application lists the directories and the
/// SoundFonts that are not hidden, and nothing else.
pub proof fn lemma_font_panel(dir: LocView, children: Seq<ChildView>)
    ensures
        ({
            let b = app::sf2_panel(dir, children);
            &&& b.dir == dir
            &&& shows_exactly(
                b.entries,
                children,
                false,
                |c: ChildView| !is_hidden(c.name) && (c.is_dir || is_font_name(c.name, false)),
            )
            &&& !b.allow_archives
        }),
{
    let b = app::sf2_panel(dir, children);
    let one = app::bare_panel(dir, playlist::sf2_exts(), false, false);
    assert forall|c: ChildView|
        #![trigger one.lists_file(c)]
        one.lists_file(c) <==> !is_hidden(c.name) && !c.is_dir && is_font_name(c.name, false) by {
        lemma_extensions(c.name);
    }
    lemma_shows_exactly(
        one,
        children,
        |c: ChildView| !is_hidden(c.name) && (c.is_dir || is_font_name(c.name, false)),
    );
    assert(b.entries == one.listing(children));
}

/// A panel listed anew: the entry of the parent first, where there is one, then
/// the directories, then the files, each by name whatever the letter case; with
/// hidden names shown when that is asked for.
pub proof fn lemma_listing_order(b: BrowserView, children: Seq<ChildView>)
    ensures
        ({
            let v = b.listing(children);
            let p: int = if b.dir.parent() is Some {
                1
            } else {
                0
            };
            &&& p <= v.len()
            &&& b.dir.parent() matches Some(d) ==> v[0].is_parent && v[0].is_dir && v[0].loc == d
                && v[0].name == seq!['.', '.']
            &&& forall|i: int| p <= i < v.len() ==> !(#[trigger] v[i]).is_parent
            &&& forall|i: int, j: int|
                p <= i < j < v.len() && (#[trigger] v[j]).is_dir ==> (#[trigger] v[i]).is_dir
            &&& forall|i: int, j: int|
                p <= i < j < v.len() && (#[trigger] v[i]).is_dir == (#[trigger] v[j]).is_dir
                    ==> !sorting::key_less(
                    sorting::text_key(text::lower(v[j].name)),
                    sorting::text_key(text::lower(v[i].name)),
                )
        }),
{
    let v = b.listing(children);
    let fd = |c: ChildView| b.lists_dir(c);
    let ff = |c: ChildView| b.lists_file(c);
    let d = browser::rows_of(children.filter(fd), b.compute_duration);
    let f = browser::rows_of(children.filter(ff), b.compute_duration);
    let nd = browser::by_name(d);
    let nf = browser::by_name(f);
    let r = b.parent_row();
    browser_laws::lemma_by_name(d);
    browser_laws::lemma_by_name(f);
    browser_laws::lemma_filter_members(children, fd);
    browser_laws::lemma_filter_members(children, ff);
    assert(v == r + nd + nf);
    assert forall|k: int| 0 <= k < nd.len() implies (#[trigger] nd[k]).is_dir && !nd[k].is_parent by {
        assert(nd.contains(nd[k]));
        let i = choose|i: int| 0 <= i < d.len() && d[i] == nd[k];
        assert(children.filter(fd).contains(children.filter(fd)[i]));
        assert(fd(children.filter(fd)[i]));
    }
    assert forall|k: int| 0 <= k < nf.len() implies !(#[trigger] nf[k]).is_dir && !nf[k].is_parent by {
        assert(nf.contains(nf[k]));
        let i = choose|i: int| 0 <= i < f.len() && f[i] == nf[k];
        assert(children.filter(ff).contains(children.filter(ff)[i]));
        assert(ff(children.filter(ff)[i]));
    }
    let p = r.len() as int;
    let m = p + nd.len() as int;
    assert forall|i: int| p <= i < v.len() implies !(#[trigger] v[i]).is_parent && v[i].is_dir == (i
        < m) by {
        if i < m {
            assert(v[i] == nd[i - p]);
        } else {
            assert(v[i] == nf[i - m]);
        }
    }
    assert forall|i: int, j: int|
        p <= i < j < v.len() && (#[trigger] v[i]).is_dir == (#[trigger] v[j]).is_dir implies !sorting::key_less(
        sorting::text_key(text::lower(v[j].name)),
        sorting::text_key(text::lower(v[i].name)),
    ) by {
        if j < m {
            assert(v[i] == nd[i - p] && v[j] == nd[j - p]);
        } else {
            assert(v[i] == nf[i - m] && v[j] == nf[j - m]);
        }
    }
}

/// Names that start with a dot are listed exactly when hidden files are shown.
pub proof fn lemma_hidden_files(b: BrowserView, c: ChildView)
    requires
        is_hidden(c.name),
    ensures
        !b.show_hidden ==> !b.lists_dir(c) && !b.lists_file(c) && !b.lists_playable(c),
        b.show_hidden && c.is_dir ==> b.lists_dir(c),
        b.show_hidden && !c.is_dir && (paths::extension(c.name) matches Some(e) && b.exts.contains(
            text::lower(e),
        )) ==> b.lists_file(c) && b.lists_playable(c),
{
}

// --- the lines of a playlist ------------------------------------------------

/// True for a line that is read as a path.
pub open spec fn is_plain_line(line: Seq<char>) -> bool {
    line.len() > 0 && line[0] != '#'
}

/// A line of a playlist is a track exactly when it ends as a MIDI file does:
/// the item it makes is where the line leads, through the SoundFont that a
/// directive above it pinned, with the lines kept for it. Any other path is
/// kept and counted as ignored.
pub proof fn lemma_playlist_line(r: Reading, line: Seq<char>, at: Place)
    requires
        is_plain_line(line),
    ensures
        ({
            let n = r.step(line, at);
            &&& is_midi_name(line, true) ==> n.items.len() == r.items.len() + 1 && n.items.drop_last()
                == r.items && n.items.last() == (ItemView {
                midi: playlist::resolve(line, at.base, at.home, at.disk),
                soundfont: match r.font {
                    Some(p) => Some(p.0),
                    None => None,
                },
                extra: r.pending,
            }) && n.font is None && n.pending.len() == 0 && n.ignored == r.ignored
            &&& !is_midi_name(line, true) ==> n.items == r.items && n.pending == r.pending.push(line)
                && n.ignored == r.ignored + 1 && n.font == r.font
            &&& n.title == r.title && n.header == r.header
        }),
{
    lemma_extensions(line);
    reveal_strlit("#EXTM3U");
    reveal_strlit("#PLAYLIST:");
    reveal_strlit("#VOXFONT:sf=");
    assert(!text::starts_with(line, playlist::title_directive())) by {
        if text::starts_with(line, playlist::title_directive()) {
            assert(line[0] == line.take(playlist::title_directive().len() as int)[0]);
        }
    }
    assert(!text::starts_with(line, playlist::sf_directive())) by {
        if text::starts_with(line, playlist::sf_directive()) {
            assert(line[0] == line.take(playlist::sf_directive().len() as int)[0]);
        }
    }
    if is_midi_name(line, true) {
        assert(r.step(line, at).items.drop_last() =~= r.items);
    }
}

/// The directives of a playlist: `#VOXFONT:sf=` pins the SoundFont it names to
/// the track that follows, if it ends as a SoundFont does; `#PLAYLIST:` gives
/// the title; `#EXTM3U` says nothing. A pin that finds no track is kept as the
/// line it was, and counted as ignored.
pub proof fn lemma_playlist_directives(r: Reading, rest: Seq<char>, at: Place)
    ensures
        ({
            let line = "#VOXFONT:sf="@ + rest;
            let v = text::trim(rest);
            let n = r.step(line, at);
            let kept = match r.font {
                Some(p) => r.pending.push(p.1),
                None => r.pending,
            };
            let lost: int = if r.font is Some {
                1
            } else {
                0
            };
            &&& n.items == r.items && n.title == r.title && n.header == r.header
            &&& is_font_name(v, true) ==> n.font == Some(
                (playlist::resolve(v, at.base, at.home, at.disk), line),
            ) && n.pending == kept && n.ignored == r.ignored + lost
            &&& !is_font_name(v, true) ==> n.font is None && n.pending == kept.push(line)
                && n.ignored == r.ignored + lost + 1
        }),
        ({
            let v = text::trim(rest);
            let n = r.step("#PLAYLIST:"@ + rest, at);
            &&& n.title == if v.len() > 0 {
                Some(v)
            } else {
                None
            }
            &&& n == (Reading { title: n.title, ..r })
        }),
        r.step("#EXTM3U"@, at) == r,
{
    reveal_strlit("#EXTM3U");
    reveal_strlit("#PLAYLIST:");
    reveal_strlit("#VOXFONT:sf=");
    let a = "#VOXFONT:sf="@ + rest;
    let b = "#PLAYLIST:"@ + rest;
    lemma_extensions(text::trim(rest));
    assert(a.take(12) =~= "#VOXFONT:sf="@);
    assert(b.take(10) =~= "#PLAYLIST:"@);
    assert(a.skip(12) =~= rest);
    assert(b.skip(10) =~= rest);
    assert(a[1] == 'V');
    assert("#EXTM3U"@[1] == 'E');
    assert("#PLAYLIST:"@[1] == 'P');
    assert(b[1] == 'P');
    assert(!text::starts_with(a, playlist::title_directive())) by {
        if text::starts_with(a, playlist::title_directive()) {
            assert(a[1] == a.take(10)[1]);
        }
    }
}

/// A blank line above the first track ends the header, and is nothing further
/// down; any other note is kept for the track that follows.
pub proof fn lemma_playlist_notes(r: Reading, line: Seq<char>, at: Place)
    requires
        line.len() == 0 || line[0] == '#',
        line != "#EXTM3U"@,
        !(line.len() >= 10 && line.take(10) == "#PLAYLIST:"@),
        !(line.len() >= 12 && line.take(12) == "#VOXFONT:sf="@),
    ensures
        ({
            let n = r.step(line, at);
            &&& n.items == r.items && n.title == r.title && n.font == r.font && n.ignored
                == r.ignored
            &&& line.len() > 0 ==> n.pending == r.pending.push(line) && n.header == r.header
            &&& line.len() == 0 && r.items.len() == 0 ==> n.header == r.header + r.pending
                && n.pending.len() == 0
            &&& line.len() == 0 && r.items.len() > 0 ==> n == r
        }),
{
    reveal_strlit("#PLAYLIST:");
    reveal_strlit("#VOXFONT:sf=");
}

/// A playlist begins with nothing read, whether or not a byte order mark stands
/// before it, and each line, without the space around it, is read in turn.
pub proof fn lemma_playlist_begins(s: Seq<char>, lines: Seq<Seq<char>>, line: Seq<char>, at: Place)
    ensures
        playlist::reading(seq![], at).items.len() == 0,
        playlist::reading(seq![], at).ignored == 0,
        playlist::reading(seq![], at).title is None,
        playlist::reading(seq![], at).font is None,
        playlist::reading(seq![], at).header.len() == 0,
        playlist::reading(seq![], at).pending.len() == 0,
        playlist::reading(lines.push(line), at) == playlist::reading(lines, at).step(
            text::trim(line),
            at,
        ),
        !(s.len() > 0 && s[0] == '\u{feff}') ==> playlist::parsed(seq!['\u{feff}'] + s, at)
            == playlist::parsed(s, at),
{
    assert(lines.push(line).drop_last() =~= lines);
    assert((seq!['\u{feff}'] + s).skip(1) =~= s);
}


// --- getting around ---------------------------------------------------------

/// Entering a directory or an archive goes there, entering the entry of the
/// parent goes up, and a file is not entered. What is typed to search is gone
/// then, and everything that is there is listed.
pub proof fn lemma_entered(b: BrowserView, e: EntryView, children: Seq<ChildView>)
    requires
        b.at matches Some(i) && i < b.entries.len() && b.entries[i as int] == e,
    ensures
        ({
            let r = b.entered(children);
            let up = b.dir.parent();
            let to = if e.is_parent {
                up
            } else if e.is_dir {
                Some(e.loc)
            } else {
                None
            };
            &&& b.entering() == to
            &&& to is Some ==> r.dir == to->0 && r.filter.len() == 0 && r.entries == r.all && r.all
                == r.listing(children)
            &&& to is None ==> r == b
            &&& r.exts == b.exts && r.also == b.also && r.show_hidden == b.show_hidden
        }),
{
    let to = if e.is_parent {
        b.dir.parent()
    } else if e.is_dir {
        Some(e.loc)
    } else {
        None
    };
    if to is Some {
        let m = b.moved_to(to->0, children);
        lemma_same_listing(m, BrowserView { dir: to->0, filter: seq![], at: Some(0), ..b }, children);
        lemma_same_listing(m.on_item(b.dir.key()), m, children);
    }
}

/// What a panel lists depends on where it is and on what it is for, not on its
/// cursor or filter.
proof fn lemma_same_listing(a: BrowserView, b: BrowserView, children: Seq<ChildView>)
    requires
        a.dir == b.dir,
        a.exts == b.exts,
        a.also == b.also,
        a.show_hidden == b.show_hidden,
        a.compute_duration == b.compute_duration,
    ensures
        a.listing(children) == b.listing(children),
{
    let f = |c: ChildView| a.lists_dir(c);
    let g = |c: ChildView| b.lists_dir(c);
    assert(f =~= g);
    let f2 = |c: ChildView| a.lists_file(c);
    let g2 = |c: ChildView| b.lists_file(c);
    assert(f2 =~= g2);
}

/// Going up goes to the directory above, where there is one.
pub proof fn lemma_gone_up(b: BrowserView, children: Seq<ChildView>)
    ensures
        b.dir.parent() is Some ==> b.above(children).dir == b.dir.parent()->0 && b.above(
            children,
        ).filter.len() == 0,
        b.dir.parent() is None ==> b.above(children) == b,
{
}

/// Revealing a place goes to the directory it is in, unless the panel is there
/// already, and stays otherwise.
pub proof fn lemma_revealed(b: BrowserView, loc: LocView, children: Seq<ChildView>)
    ensures
        ({
            let r = b.revealed(loc, children);
            let p = loc.parent();
            &&& p is None ==> r == b && b.revealing(loc) is None
            &&& p is Some && (p->0).key() != b.dir.key() ==> r.dir == p->0 && b.revealing(loc) == p
                && r.filter.len() == 0
            &&& p is Some && (p->0).key() == b.dir.key() ==> r.dir == b.dir && r.entries
                == b.entries && r.filter == b.filter && b.revealing(loc) is None
        }),
{
}

/// A member of an archive is stepped to from the directory the archive is in and
/// from inside the archive; from elsewhere, and for a file on disk, the panel
/// stays where it is.
pub proof fn lemma_stepped_into(b: BrowserView, loc: LocView, children: Seq<ChildView>)
    ensures
        loc is Fs ==> b.stepping_into(loc) is None && b.deeply_on(loc, children).dir == b.dir,
        loc matches LocView::Zip { archive, inner } ==> ({
            let near = match b.dir {
                LocView::Fs(d) => paths::key(d) == paths::key(
                    (LocView::Zip { archive, inner: seq![] }).parent()->0->Fs_0,
                ),
                LocView::Zip { archive: a, .. } => paths::key(a) == paths::key(archive),
            };
            &&& near ==> b.stepping_into(loc) == b.revealing(loc) && b.deeply_on(loc, children)
                == b.revealed(loc, children)
            &&& !near ==> b.stepping_into(loc) is None && b.deeply_on(loc, children).dir == b.dir
                && b.deeply_on(loc, children).entries == b.entries
        }),
{
}


} // verus!
