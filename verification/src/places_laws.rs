//! What holds of paths and names, of what is listed on disk and in archives, and
//! of how a playlist spells places.

use crate::ascii;
use crate::host;
use crate::paths;
use crate::paths::PathKey;
use crate::playlist;
use crate::playlist::{DocView, ItemView};
use crate::raw;
use crate::text;
use crate::vfs;
use crate::vfs::{DiskEntry, FileKind, LocView, ZipFact};
use vstd::prelude::*;

verus! {

// --- paths ------------------------------------------------------------------

/// A path seen from a directory: an absolute one is itself, any other follows
/// the directory after a slash, of which there is only one.
pub proof fn lemma_join(base: Seq<char>, p: Seq<char>)
    ensures
        p.len() > 0 && p[0] == '/' ==> paths::join(base, p) == p,
        (p.len() == 0 || p[0] != '/') && base.len() > 0 && base.last() != '/' ==> paths::join(base, p)
            == base + seq!['/'] + p,
        (p.len() == 0 || p[0] != '/') && (base.len() == 0 || base.last() == '/') ==> paths::join(
            base,
            p,
        ) == base + p,
{
    assert(base.push('/') + p =~= base + seq!['/'] + p);
}

/// The parts of a name: what follows its last dot is its extension, unless the
/// dot is the first character; a name without a dot has none.
pub proof fn lemma_name_parts(dir: Seq<char>, stem: Seq<char>, ext: Seq<char>)
    requires
        !stem.contains('/'),
        !ext.contains('/'),
        !ext.contains('.'),
    ensures
        stem.len() > 0 && stem + seq!['.'] + ext != seq!['.', '.'] ==> paths::extension(
            paths::join(dir, stem + seq!['.'] + ext),
        ) == Some(ext) && paths::file_name(paths::join(dir, stem + seq!['.'] + ext)) == Some(
            stem + seq!['.'] + ext,
        ),
        ext.len() > 0 ==> paths::extension(paths::join(dir, ext)) is None && paths::file_name(
            paths::join(dir, ext),
        ) == Some(ext),
        ext.len() > 0 ==> paths::extension(paths::join(dir, seq!['.'] + ext)) is None,
{
    let n = stem + seq!['.'] + ext;
    assert forall|i: int| 0 <= i < ext.len() implies ext[i] != '.' && ext[i] != '/' by {
        assert(ext.contains(ext[i]));
    }
    assert(!n.contains('/')) by {
        if n.contains('/') {
            let i = choose|i: int| 0 <= i < n.len() && n[i] == '/';
            if i < stem.len() {
                assert(stem.contains(stem[i]));
            } else if i > stem.len() {
                assert(n[i] == ext[i - stem.len() - 1]);
            }
        }
    }
    let k = stem.len() as int + 1;
    if stem.len() > 0 && n != seq!['.', '.'] {
        assert(n != paths::dot()) by {
            assert(n.len() >= 2 && paths::dot().len() == 1);
        }
        paths::lemma_join_name(dir, n);
        assert(n[k - 1] == '.');
        assert forall|i: int| k <= i < n.len() implies n[i] != '.' by {
            assert(n[i] == ext[i - k]);
        }
        text::lemma_past_last_is(n, '.', k);
        assert(n.skip(k) =~= ext);
    }
    if ext.len() > 0 {
        assert(ext[0] != '.');
        paths::lemma_join_name(dir, ext);
        text::lemma_past_last_is(ext, '.', 0);
        let h = seq!['.'] + ext;
        assert(!h.contains('/')) by {
            if h.contains('/') {
                let i = choose|i: int| 0 <= i < h.len() && h[i] == '/';
                assert(i > 0 && h[i] == ext[i - 1]);
            }
        }
        assert(h[1] == ext[0]);
        paths::lemma_join_name(dir, h);
        assert(h[0] == '.');
        assert forall|i: int| 1 <= i < h.len() implies h[i] != '.' by {
            assert(h[i] == ext[i - 1]);
        }
        text::lemma_past_last_is(h, '.', 1);
    }
}

/// Resolving a path goes along it: `.` stays, `..` goes back a directory, any
/// other component goes into it. Nothing is above the root, and a relative path
/// keeps the `..` that lead above its start.
pub proof fn lemma_normalize_goes_along(s: Seq<char>, c: Seq<char>)
    requires
        s.len() > 0,
        c.len() > 0,
        !c.contains('/'),
    ensures
        ({
            let a = paths::key(paths::normalize(s));
            let b = paths::key(paths::normalize(s + seq!['/'] + c));
            &&& b.root == a.root && a.root == (s[0] == '/')
            &&& c == seq!['.'] ==> b.segs == a.segs
            &&& c == seq!['.', '.'] && a.segs.len() > 0 && a.segs.last() != seq!['.', '.']
                ==> b.segs == a.segs.drop_last()
            &&& c == seq!['.', '.'] && a.segs.len() == 0 && a.root ==> b.segs == a.segs
            &&& c == seq!['.', '.'] && !a.root && (a.segs.len() == 0 || a.segs.last() == seq![
                '.',
                '.',
            ]) ==> b.segs == a.segs.push(c)
            &&& c != seq!['.'] && c != seq!['.', '.'] ==> b.segs == a.segs.push(c)
        }),
{
    let t = s + seq!['/'] + c;
    assert(t =~= s.push('/') + c);
    paths::lemma_segs_append(s, c, true);
    paths::lemma_one_seg(c, false);
    paths::lemma_key_of_normalize(s);
    paths::lemma_key_of_normalize(t);
    assert(t[0] == s[0]);
    let v = paths::key(s).segs;
    let r = paths::is_absolute(s);
    if c == paths::dot() {
        assert(v + Seq::<Seq<char>>::empty() =~= v);
    } else {
        assert(v + seq![c] =~= v.push(c));
        assert(v.push(c).drop_last() =~= v);
    }
}

/// The plainest spelling of a path: its components with a slash between each
/// two, and one in front of an absolute path.
pub proof fn lemma_spelled(v: Seq<Seq<char>>, c: Seq<char>)
    ensures
        paths::render(PathKey { root: true, segs: seq![] }) == seq!['/'],
        paths::render(PathKey { root: true, segs: seq![c] }) == seq!['/'] + c,
        paths::render(PathKey { root: false, segs: seq![c] }) == c,
        v.len() > 0 ==> paths::render(PathKey { root: true, segs: v.push(c) }) == paths::render(
            PathKey { root: true, segs: v },
        ) + seq!['/'] + c,
        v.len() > 0 ==> paths::render(PathKey { root: false, segs: v.push(c) }) == paths::render(
            PathKey { root: false, segs: v },
        ) + seq!['/'] + c,
{
    reveal_with_fuel(paths::join_segs, 2);
    assert(seq!['/'] + Seq::<char>::empty() =~= seq!['/']);
    if v.len() > 0 {
        paths::lemma_join_append(v, seq![c]);
        assert(v + seq![c] =~= v.push(c));
        assert(paths::join_segs(v.push(c)) =~= paths::join_segs(v) + seq!['/'] + c);
        assert(paths::render(PathKey { root: true, segs: v.push(c) }) =~= paths::render(
            PathKey { root: true, segs: v },
        ) + seq!['/'] + c);
    }
}

/// A path is what its components are: empty ones and `.` say nothing, so two
/// spellings of one path name the same.
pub proof fn lemma_same_path(a: Seq<char>, b: Seq<char>)
    requires
        a.len() > 0,
    ensures
        paths::key(a + seq!['/'] + b) == paths::key(a + seq!['/', '/'] + b),
        paths::key(a + seq!['/'] + b) == paths::key(a + seq!['/', '.', '/'] + b),
        paths::key(a) == paths::key(a + seq!['/']),
{
    let none = Seq::<char>::empty();
    let dot = seq!['.'];
    assert(!none.contains('/'));
    assert(!dot.contains('/')) by {
        if dot.contains('/') {
            let i = choose|i: int| 0 <= i < dot.len() && dot[i] == '/';
            assert(dot[i] == '.');
        }
    }
    paths::lemma_one_seg(none, false);
    paths::lemma_one_seg(dot, false);
    paths::lemma_segs_append(a, b, true);
    assert(a + seq!['/'] + b =~= a.push('/') + b);
    paths::lemma_segs_append(a, none, true);
    assert(a.push('/') + none =~= a + seq!['/']);
    paths::lemma_segs_append(none, b, false);
    let x = none.push('/') + b;
    paths::lemma_segs_append(a, x, true);
    assert(a.push('/') + x =~= a + seq!['/', '/'] + b);
    paths::lemma_segs_append(dot, b, false);
    let y = dot.push('/') + b;
    paths::lemma_segs_append(a, y, true);
    assert(a.push('/') + y =~= a + seq!['/', '.', '/'] + b);
    let e = Seq::<Seq<char>>::empty();
    assert(e + paths::segs_from(b, false) =~= paths::segs_from(b, false));
    assert(paths::segs_from(a, true) + e =~= paths::segs_from(a, true));
    assert((a + seq!['/'] + b)[0] == a[0]);
    assert((a + seq!['/', '/'] + b)[0] == a[0]);
    assert((a + seq!['/', '.', '/'] + b)[0] == a[0]);
    assert((a + seq!['/'])[0] == a[0]);
}

// --- places -----------------------------------------------------------------

/// Inside an archive, the directory above a member is what stands before its
/// last slash, the root of the archive where there is none, and above that the
/// directory that the archive is in.
pub proof fn lemma_above_member(archive: Seq<char>, a: Seq<char>, b: Seq<char>)
    requires
        !b.contains('/'),
        b.len() > 0,
    ensures
        (LocView::Zip { archive, inner: a + seq!['/'] + b }).parent() == Some(
            LocView::Zip { archive, inner: a },
        ),
        (LocView::Zip { archive, inner: b }).parent() == Some(
            LocView::Zip { archive, inner: seq![] },
        ),
        (LocView::Zip { archive, inner: seq![] }).parent() == Some(
            LocView::Fs(
                if paths::parent(archive) is Some {
                    paths::parent(archive)->0
                } else {
                    seq!['/']
                },
            ),
        ),
        (LocView::Zip { archive, inner: a + seq!['/'] + b }).file_name() == b,
        (LocView::Zip { archive, inner: b }).file_name() == b,
        (LocView::Zip { archive, inner: b }).display() == raw::shown(archive) + ":/"@ + b,
        LocView::Fs(archive).display() == raw::shown(archive),
{
    reveal_strlit(":/");
    assert(":/"@ =~= seq![':', '/']);
    let s = a + seq!['/'] + b;
    let n = a.len() as int + 1;
    assert forall|i: int| 0 <= i < b.len() implies b[i] != '/' by {
        assert(b.contains(b[i]));
    }
    assert forall|i: int| n <= i < s.len() implies s[i] != '/' by {
        assert(s[i] == b[i - n]);
    }
    assert(s[n - 1] == '/');
    text::lemma_past_last_is(s, '/', n);
    assert(s.take(n - 1) =~= a);
    assert(s.skip(n) =~= b);
    text::lemma_past_last_is(b, '/', 0);
    assert(b.skip(0) =~= b);
}

/// Two places are the same when their paths are, whatever their spelling; a
/// member of an archive is never a file on disk.
pub proof fn lemma_same_place(p: Seq<char>, q: Seq<char>, i: Seq<char>, j: Seq<char>)
    ensures
        LocView::Fs(p).key() == LocView::Fs(q).key() <==> paths::key(p) == paths::key(q),
        (LocView::Zip { archive: p, inner: i }).key() == (LocView::Zip { archive: q, inner: j }).key()
            <==> paths::key(p) == paths::key(q) && i == j,
        LocView::Fs(p).key() != (LocView::Zip { archive: q, inner: j }).key(),
{
}

// --- what is listed ---------------------------------------------------------

/// What is in a directory: a directory, an archive (a file whose name ends in
/// `.zip`, whatever the letter case, where archives are gone into) with the size
/// of its file, or a file with its size and length.
pub proof fn lemma_listed_on_disk(e: DiskEntry, dir: Seq<char>, archives: bool)
    ensures
        ({
            let c = vfs::child_of(e, dir, archives);
            let path = paths::join(dir, e.name@);
            let low = ascii::lower_ascii(raw::shown(e.name@));
            let zip = low.len() >= 4 && low.skip(low.len() - 4) == ".zip"@;
            &&& c.name == raw::shown(e.name@)
            &&& e.is_dir ==> c.is_dir && c.loc == LocView::Fs(path) && c.size == 0 && c.length
                is None
            &&& !e.is_dir && archives && zip ==> c.is_dir && c.loc == (LocView::Zip {
                archive: path,
                inner: seq![],
            }) && c.size == e.size && c.length is None
            &&& !e.is_dir && !(archives && zip) ==> !c.is_dir && c.loc == LocView::Fs(path)
                && c.size == e.size && c.length == e.length
        }),
{
    reveal_strlit(".zip");
    assert(".zip"@ =~= seq!['.', 'z', 'i', 'p']);
}

/// The name of a member without the slashes that mark a directory.
pub proof fn lemma_member_name(s: Seq<char>)
    ensures
        (s.len() == 0 || s.last() != '/') ==> vfs::trim_slashes(s) == s,
        vfs::trim_slashes(s + seq!['/']) == vfs::trim_slashes(s),
{
    assert((s + seq!['/']).drop_last() =~= s);
}

/// What a path shows of itself.
proof fn lemma_path_shows(dir: Seq<char>, s: Seq<char>, marker: bool, f: ZipFact)
    requires
        vfs::path_facts(dir, s, marker).contains(f),
    ensures
        !f.name.contains('/'),
        (f.dir + f.name == dir + s && f.is_dir == marker) || (f.is_dir && text::starts_with(
            dir + s,
            f.dir + f.name + seq!['/'],
        )),
    decreases s.len(),
{
    let k = text::find(s, '/');
    text::lemma_find(s, '/');
    let v = vfs::path_facts(dir, s, marker);
    let i = choose|i: int| 0 <= i < v.len() && v[i] == f;
    if k < s.len() {
        let here = ZipFact { dir, name: s.take(k), is_dir: true };
        let d = dir + s.take(k + 1);
        let rest = s.skip(k + 1);
        let w = vfs::path_facts(d, rest, marker);
        assert(v == seq![here] + w);
        if i == 0 {
            assert(f == here);
            assert(f.dir + f.name + seq!['/'] =~= dir + s.take(k + 1));
            let n = (dir + s.take(k + 1)).len() as int;
            assert((dir + s).take(n) =~= dir + s.take(k + 1));
            if f.name.contains('/') {
                let j = choose|j: int| 0 <= j < f.name.len() && f.name[j] == '/';
                assert(s[j] == '/');
            }
        } else {
            assert(w[i - 1] == f);
            assert(w.contains(f));
            lemma_path_shows(d, rest, marker, f);
            assert(d + rest =~= dir + s);
        }
    } else {
        assert(f == ZipFact { dir, name: s, is_dir: marker });
        if s.contains('/') {
            let j = choose|j: int| 0 <= j < s.len() && s[j] == '/';
            assert(false);
        }
    }
}

proof fn lemma_fact_has_member(names: Seq<Seq<char>>, f: ZipFact) -> (i: int)
    requires
        vfs::zip_facts(names).contains(f),
    ensures
        0 <= i < names.len(),
        vfs::member_facts(names[i]).contains(f),
    decreases names.len(),
{
    let front = vfs::zip_facts(names.drop_last());
    let last = vfs::member_facts(names.last());
    let v = vfs::zip_facts(names);
    let j = choose|j: int| 0 <= j < v.len() && v[j] == f;
    if j < front.len() {
        assert(front[j] == f);
        assert(front.contains(f));
        lemma_fact_has_member(names.drop_last(), f)
    } else {
        assert(last[j - front.len()] == f);
        assert(last.contains(f));
        names.len() - 1
    }
}

/// Nothing is listed in an archive but what its members show: a name in a
/// directory is that of a member, or a directory on the way to one; and it is a
/// directory only where a member is below it or marks it as one.
pub proof fn lemma_only_members_are_listed(
    names: Seq<Seq<char>>,
    dir: Seq<char>,
    name: Seq<char>,
)
    ensures
        vfs::zip_holds(vfs::zip_facts(names), dir, name) ==> !name.contains('/') && exists|i: int|
            0 <= i < names.len() && {
                let t = vfs::trim_slashes(#[trigger] names[i]);
                t == dir + name || text::starts_with(t, dir + name + seq!['/'])
            },
        vfs::zip_is_dir(vfs::zip_facts(names), dir, name) ==> exists|i: int|
            0 <= i < names.len() && {
                let t = vfs::trim_slashes(#[trigger] names[i]);
                (t == dir + name && names[i].last() == '/') || text::starts_with(
                    t,
                    dir + name + seq!['/'],
                )
            },
{
    let v = vfs::zip_facts(names);
    if vfs::zip_holds(v, dir, name) {
        let j = choose|j: int|
            0 <= j < v.len() && (#[trigger] v[j]).dir == dir && v[j].name == name;
        assert(v.contains(v[j]));
        let i = lemma_fact_has_member(names, v[j]);
        let t = vfs::trim_slashes(names[i]);
        let none = Seq::<char>::empty();
        assert(none + t =~= t);
        lemma_path_shows(none, t, names[i].last() == '/', v[j]);
    }
    if vfs::zip_is_dir(v, dir, name) {
        let j = choose|j: int|
            0 <= j < v.len() && (#[trigger] v[j]).dir == dir && v[j].name == name && v[j].is_dir;
        assert(v.contains(v[j]));
        let i = lemma_fact_has_member(names, v[j]);
        let t = vfs::trim_slashes(names[i]);
        let none = Seq::<char>::empty();
        assert(none + t =~= t);
        lemma_path_shows(none, t, names[i].last() == '/', v[j]);
    }
}

/// A child in an archive: its place is that of the directory with the name
/// behind it, after a slash below the root.
pub proof fn lemma_listed_in_archive(
    archive: Seq<char>,
    inner: Seq<char>,
    name: Seq<char>,
    is_dir: bool,
)
    ensures
        ({
            let c = vfs::member_child(archive, inner, name, is_dir);
            &&& c.name == name && c.is_dir == is_dir
            &&& inner.len() == 0 ==> c.loc == (LocView::Zip { archive, inner: name })
            &&& inner.len() > 0 ==> c.loc == (LocView::Zip { archive, inner: inner + seq!['/'] + name })
        }),
        inner.len() == 0 ==> vfs::zip_dir(inner).len() == 0,
        inner.len() > 0 ==> vfs::zip_dir(inner) == inner + seq!['/'],
{
    assert(Seq::<char>::empty() + name =~= name);
    assert(inner.push('/') =~= inner + seq!['/']);
}

// --- the places of a playlist -----------------------------------------------

/// True when the first `n` components name an archive on disk.
pub open spec fn archive_at(k: PathKey, n: int, disk: Map<Seq<char>, FileKind>) -> bool {
    let low = ascii::lower_ascii(k.segs[n - 1]);
    let path = paths::render(PathKey { root: k.root, segs: k.segs.take(n) });
    &&& low.len() >= 4 && low.skip(low.len() - 4) == ".zip"@
    &&& disk.contains_key(path) && disk[path] == FileKind::File
}

proof fn lemma_split_at(k: PathKey, disk: Map<Seq<char>, FileKind>, i: int, n: int)
    requires
        0 <= i < n <= k.segs.len() || (n == k.segs.len() && 0 <= i),
        forall|m: int| i < m < n && m < k.segs.len() ==> !#[trigger] archive_at(k, m, disk),
        n < k.segs.len() ==> archive_at(k, n, disk),
    ensures
        n == k.segs.len() ==> playlist::split_from(k, disk, i) == LocView::Fs(paths::render(k)),
        n < k.segs.len() ==> playlist::split_from(k, disk, i) == (LocView::Zip {
            archive: paths::render(PathKey { root: k.root, segs: k.segs.take(n) }),
            inner: paths::join_segs(k.segs.skip(n)),
        }),
    decreases k.segs.len() - i,
{
    reveal_strlit(".zip");
    assert(".zip"@ =~= seq!['.', 'z', 'i', 'p']);
    if i + 1 < k.segs.len() {
        assert(archive_at(k, i + 1, disk) <==> vfs::archive_name(k.segs[i]) && vfs::file_on_disk(
            disk,
            paths::render(PathKey { root: k.root, segs: k.segs.take(i + 1) }),
        ));
        if i + 1 < n {
            lemma_split_at(k, disk, i + 1, n);
        }
    }
}

/// Where a line of a playlist leads: its path, from the playlist's directory and
/// with `~` for home, with `.` and `..` resolved. Where an archive on disk is on
/// the way, it leads to the member of the first one.
pub proof fn lemma_resolved(
    s: Seq<char>,
    base: Seq<char>,
    home: Seq<char>,
    disk: Map<Seq<char>, FileKind>,
    n: int,
)
    requires
        ({
            let k = paths::key(paths::normalize(paths::join(base, host::tilde(s, home))));
            &&& 0 < n <= k.segs.len()
            &&& forall|m: int| 0 < m < n ==> !#[trigger] archive_at(k, m, disk)
            &&& n < k.segs.len() ==> archive_at(k, n, disk)
        }),
    ensures
        ({
            let p = paths::normalize(paths::join(base, host::tilde(s, home)));
            let k = paths::key(p);
            &&& n == k.segs.len() ==> playlist::resolve(s, base, home, disk) == LocView::Fs(p)
            &&& n < k.segs.len() ==> playlist::resolve(s, base, home, disk) == (LocView::Zip {
                archive: paths::render(PathKey { root: k.root, segs: k.segs.take(n) }),
                inner: paths::join_segs(k.segs.skip(n)),
            })
        }),
{
    let j = paths::join(base, host::tilde(s, home));
    paths::lemma_key_of_normalize(j);
    let k = paths::norm_key(paths::key(j));
    lemma_split_at(k, disk, 0, n);
}

/// How a place is written in a playlist: below the playlist's directory by the
/// way from there, elsewhere in full, a member of an archive as a path through
/// it. What would read as a comment or as home has `./` in front.
pub proof fn lemma_place_written(p: Seq<char>, inner: Seq<char>, base: Seq<char>)
    ensures
        ({
            let k = paths::key(p);
            let b = paths::key(base);
            let n = b.segs.len() as int;
            let is_below = k.root == b.root && n < k.segs.len() && k.segs.take(n) == b.segs;
            let way = raw::shown(
                if is_below {
                    paths::join_segs(k.segs.skip(n))
                } else {
                    p
                },
            );
            let safe = |t: Seq<char>|
                if (t.len() > 0 && t[0] == '#') || t == "~"@ || (t.len() >= 2 && t[0] == '~' && t[1]
                    == '/') {
                    "./"@ + t
                } else {
                    t
                };
            &&& playlist::path_text(LocView::Fs(p), base) == safe(way)
            &&& inner.len() > 0 ==> playlist::path_text(LocView::Zip { archive: p, inner }, base)
                == safe(way + seq!['/'] + inner)
        }),
{
    reveal_strlit("~");
    reveal_strlit("./");
    assert("~"@ =~= seq!['~']);
    assert("./"@ =~= seq!['.', '/']);
    let way = raw::shown(playlist::disk_part(LocView::Fs(p), base));
    lemma_home_like(way);
    assert(way.push('/') + inner =~= way + seq!['/'] + inner);
    lemma_home_like(way + seq!['/'] + inner);
}

proof fn lemma_home_like(t: Seq<char>)
    ensures
        text::starts_with(t, seq!['~', '/']) <==> t.len() >= 2 && t[0] == '~' && t[1] == '/',
{
    if t.len() >= 2 {
        assert(t.take(2)[0] == t[0] && t.take(2)[1] == t[1]);
        if t[0] == '~' && t[1] == '/' {
            assert(t.take(2) =~= seq!['~', '/']);
        }
    }
}

/// A document with nothing in it but a title, perhaps, and items.
pub open spec fn clean(title: Option<Seq<char>>, items: Seq<ItemView>) -> DocView {
    DocView { title, header: seq![], items, trailer: seq![], ignored: 0 }
}

proof fn lemma_items_written(s: Seq<ItemView>, n: int, item: ItemView, base: Seq<char>)
    requires
        0 <= n <= s.len(),
    ensures
        playlist::items_lines(s.push(item), n, base) == playlist::items_lines(s, n, base),
        playlist::items_stray(s.push(item), n) == playlist::items_stray(s, n),
    decreases n,
{
    if n > 0 {
        lemma_items_written(s, n - 1, item, base);
    }
}

/// The lines of a playlist: `#EXTM3U`, the title behind `#PLAYLIST:`, then for
/// each item, in order, a `#VOXFONT:sf=` with its SoundFont, if it has one, and
/// its track.
pub proof fn lemma_lines_written(
    title: Option<Seq<char>>,
    items: Seq<ItemView>,
    item: ItemView,
    base: Seq<char>,
)
    requires
        item.extra.len() == 0,
        forall|i: int| 0 <= i < items.len() ==> (#[trigger] items[i]).extra.len() == 0,
    ensures
        title is None ==> playlist::doc_lines(clean(title, seq![]), base) == seq!["#EXTM3U"@],
        title is Some ==> playlist::doc_lines(clean(title, seq![]), base) == seq![
            "#EXTM3U"@,
            "#PLAYLIST:"@ + title->0,
        ],
        item.soundfont is None ==> playlist::doc_lines(clean(title, items.push(item)), base)
            == playlist::doc_lines(clean(title, items), base) + seq![
            playlist::path_text(item.midi, base),
        ],
        item.soundfont is Some ==> playlist::doc_lines(clean(title, items.push(item)), base)
            == playlist::doc_lines(clean(title, items), base) + seq![
            "#VOXFONT:sf="@ + playlist::path_text(item.soundfont->0, base),
            playlist::path_text(item.midi, base),
        ],
{
    let n = items.len() as int;
    let all = items.push(item);
    let none = Seq::<Seq<char>>::empty();
    assert(item.extra =~= none);
    lemma_items_written(items, n, item, base);
    lemma_no_stray(items, n);
    lemma_no_stray(all, n + 1);
    assert(playlist::tame(none) =~= none && playlist::stray(none) =~= none);
    let a = playlist::doc_lines(clean(title, seq![]), base);
    if title is None {
        assert(a =~= seq!["#EXTM3U"@]);
    } else {
        assert(a =~= seq!["#EXTM3U"@, "#PLAYLIST:"@ + title->0]);
    }
    let b = playlist::doc_lines(clean(title, all), base);
    let c = playlist::doc_lines(clean(title, items), base);
    assert(playlist::top_notes(none, all) =~= none && playlist::top_notes(none, items) =~= none);
    assert(playlist::top_stray(none, all) =~= none && playlist::top_stray(none, items) =~= none);
    if item.soundfont is None {
        assert(b =~= c + seq![playlist::path_text(item.midi, base)]);
    } else {
        assert(b =~= c + seq![
            "#VOXFONT:sf="@ + playlist::path_text(item.soundfont->0, base),
            playlist::path_text(item.midi, base),
        ]);
    }
}

proof fn lemma_no_stray(s: Seq<ItemView>, n: int)
    requires
        0 <= n <= s.len(),
        forall|i: int| 0 <= i < s.len() ==> (#[trigger] s[i]).extra.len() == 0,
    ensures
        playlist::items_stray(s, n) =~= seq![],
    decreases n,
{
    if n > 0 {
        lemma_no_stray(s, n - 1);
        assert(s[n - 1].extra.len() == 0);
    }
}

/// The directory on disk of a place: itself, or the one that holds the archive.
pub proof fn lemma_directory_on_disk(p: Seq<char>, inner: Seq<char>)
    ensures
        LocView::Fs(p).fs_dir() == p,
        LocView::Fs(p).on_fs() == Some(p),
        paths::parent(p) is Some ==> (LocView::Zip { archive: p, inner }).fs_dir()
            == paths::parent(p)->0,
        paths::parent(p) is None ==> (LocView::Zip { archive: p, inner }).fs_dir() == seq!['/'],
        inner.len() == 0 ==> (LocView::Zip { archive: p, inner }).on_fs() == Some(
            (LocView::Zip { archive: p, inner }).fs_dir(),
        ),
        inner.len() > 0 ==> (LocView::Zip { archive: p, inner }).on_fs() is None,
{
}


} // verus!
