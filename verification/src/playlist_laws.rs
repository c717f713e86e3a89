//! What holds of playlists as a whole: that a saved playlist reads back as the
//! same one, and that identities follow their items.

use crate::ascii;
use crate::conf;
use crate::favourites;
use crate::host;
use crate::paths;
use crate::paths::PathKey;
use crate::playlist;
use crate::playlist::{DocView, ItemView, Place, PlaylistView, Reading};
use crate::raw;
use crate::text;
use crate::vfs;
use crate::vfs::{FileKind, LocView};
use vstd::prelude::*;

verus! {

// --- identities -------------------------------------------------------------

/// An identity keeps pointing at its item when two items are exchanged.
pub proof fn lemma_swap_follows(p: PlaylistView, a: int, b: int, i: int)
    requires
        p.wf(),
        0 <= a < p.items.len(),
        0 <= b < p.items.len(),
        0 <= i < p.items.len(),
    ensures
        ({
            let ids = favourites::swapped(p.ids, a, b);
            let items = favourites::swapped(p.items, a, b);
            let at = playlist::find_id(ids, p.ids[i]);
            0 <= at < items.len() && items[at] == p.items[i]
        }),
{
    let ids = favourites::swapped(p.ids, a, b);
    let n = if i == a {
        b
    } else if i == b {
        a
    } else {
        i
    };
    assert(ids[n] == p.ids[i]);
    assert forall|j: int| 0 <= j < n implies #[trigger] ids[j] != p.ids[i] by {
        let j2 = if j == a {
            b
        } else if j == b {
            a
        } else {
            j
        };
        assert(ids[j] == p.ids[j2]);
        assert(j2 != i);
        if j2 < i {
            assert(p.ids[j2] != p.ids[i]);
        } else {
            assert(p.ids[i] != p.ids[j2]);
        }
    }
    playlist::lemma_find_id_is(ids, p.ids[i], n);
}

/// An identity keeps pointing at its item when another item is removed, and
/// finds nothing once its own is.
pub proof fn lemma_remove_follows(p: PlaylistView, idx: int, i: int)
    requires
        p.wf(),
        0 <= idx < p.items.len(),
        0 <= i < p.items.len(),
    ensures
        ({
            let ids = p.ids.remove(idx);
            let items = p.items.remove(idx);
            let at = playlist::find_id(ids, p.ids[i]);
            if i == idx {
                at == ids.len()
            } else {
                0 <= at < items.len() && items[at] == p.items[i]
            }
        }),
{
    let ids = p.ids.remove(idx);
    let n = if i == idx {
        ids.len() as int
    } else if i < idx {
        i
    } else {
        i - 1
    };
    assert forall|j: int| 0 <= j < n implies #[trigger] ids[j] != p.ids[i] by {
        let j2 = if j < idx { j } else { j + 1 };
        assert(ids[j] == p.ids[j2]);
        assert(j2 != i);
        if j2 < i {
            assert(p.ids[j2] != p.ids[i]);
        } else {
            assert(p.ids[i] != p.ids[j2]);
        }
    }
    playlist::lemma_find_id_is(ids, p.ids[i], n);
}

/// A new item gets an identity that no item has.
pub proof fn lemma_push_fresh(p: PlaylistView, item: ItemView)
    requires
        p.wf(),
        p.next_id < u64::MAX,
    ensures
        playlist::find_id(p.ids, p.next_id) == p.ids.len(),
        p.with_item(item).wf(),
{
    assert forall|i: int| 0 <= i < p.ids.len() implies #[trigger] p.ids[i] != p.next_id by {
        assert(p.ids[i] < p.next_id);
    }
    playlist::lemma_find_id_is(p.ids, p.next_id, p.ids.len() as int);
}

// --- what a parsed playlist is like -----------------------------------------

/// The extensions are not empty and none ends with space.
spec fn exts_ok(exts: Seq<Seq<char>>) -> bool {
    forall|i: int|
        0 <= i < exts.len() ==> (#[trigger] exts[i]).len() > 0 && !text::is_space(
            ascii::lower_char(exts[i].last()),
        )
}

proof fn lemma_exts_ok()
    ensures
        exts_ok(playlist::midi_exts()),
        exts_ok(playlist::sf2_exts()),
{
    reveal_strlit("mid");
    reveal_strlit("midi");
    reveal_strlit("kar");
    reveal_strlit("rmi");
    reveal_strlit("sf2");
    reveal_strlit("sf3");
}

/// A name with such an extension does not end with space.
proof fn lemma_ext_edge(name: Seq<char>, exts: Seq<Seq<char>>)
    requires
        exts_ok(exts),
        paths::is_seg(name),
        playlist::has_ext(name, exts),
    ensures
        !text::is_space(name.last()),
{
    paths::lemma_one_seg(name, true);
    paths::lemma_file_name(name);
    let e = paths::extension(name)->0;
    let i = choose|i: int|
        0 <= i < exts.len() && ascii::lower_ascii(#[trigger] exts[i]) == ascii::lower_ascii(e);
    let k = text::past_last(name, '.');
    text::lemma_past_last(name, '.');
    assert(ascii::lower_ascii(e).len() == e.len());
    assert(ascii::lower_ascii(exts[i]).len() == exts[i].len());
    assert(e.len() > 0);
    assert(e.last() == name.last());
    assert(ascii::lower_ascii(e).last() == ascii::lower_char(e.last()));
    assert(ascii::lower_ascii(exts[i]).last() == ascii::lower_char(exts[i].last()));
    if text::is_space(name.last()) {
        assert(ascii::lower_char(e.last()) == e.last());
    }
}

/// True for what a text in a playlist resolves to: a plain path from the root
/// whose name has one of the extensions, through whatever archive is on it.
pub open spec fn is_resolved(l: LocView, exts: Seq<Seq<char>>, disk: Map<Seq<char>, FileKind>) -> bool {
    exists|k: PathKey| #[trigger] resolves_to(k, l, exts, disk)
}

pub open spec fn resolves_to(
    k: PathKey,
    l: LocView,
    exts: Seq<Seq<char>>,
    disk: Map<Seq<char>, FileKind>,
) -> bool {
    &&& k.root
    &&& k.segs.len() > 0
    &&& paths::is_norm(k.segs, true)
    &&& playlist::has_ext(k.segs.last(), exts)
    &&& l == playlist::split_from(k, disk, 0)
}

/// The components of `x` do not depend on whether it is first, but for a
/// leading `.`.
proof fn lemma_segs_inner(x: Seq<char>)
    ensures
        paths::segs_from(x, false) == ({
            let v = paths::segs_from(x, true);
            if v.len() > 0 && v[0] == paths::dot() {
                v.drop_first()
            } else {
                v
            }
        }),
{
    let k = text::find(x, '/');
    text::lemma_find(x, '/');
    let p = x.take(k);
    let rest = if k < x.len() {
        paths::segs_from(x.skip(k + 1), false)
    } else {
        seq![]
    };
    let v = paths::segs_from(x, true);
    if p.len() == 0 {
        assert(v =~= rest);
        assert(paths::segs_from(x, false) =~= rest);
        if k < x.len() {
            paths::lemma_segs(x.skip(k + 1), false);
        }
    } else if p == paths::dot() {
        assert(v =~= seq![p] + rest);
        assert(v.drop_first() =~= rest);
        assert(paths::segs_from(x, false) =~= rest);
    } else {
        assert(v =~= seq![p] + rest);
        assert(paths::segs_from(x, false) =~= v);
    }
}

/// The name of a text that starts with the home directory is that of the rest.
proof fn lemma_home_name(s: Seq<char>, home: Seq<char>)
    requires
        paths::extension(s) is Some,
        text::starts_with(s, seq!['~', '/']),
    ensures
        ({
            let v = paths::key(s).segs;
            let x = home.push('/') + s.skip(2);
            &&& v.len() > 0
            &&& paths::segs_from(x, true).len() > 0
            &&& paths::segs_from(x, true).last() == v.last()
        }),
{
    let v = paths::key(s).segs;
    let t = seq!['~'];
    assert(!t.contains('/'));
    paths::lemma_one_seg(t, true);
    let rest = s.skip(2);
    assert(s.take(2) =~= seq!['~', '/']);
    assert(s =~= s.take(2) + s.skip(2));
    assert(s =~= t.push('/') + rest);
    paths::lemma_segs_append(t, rest, true);
    let r = paths::segs_from(rest, false);
    assert(v == seq![t] + r);
    if r.len() == 0 {
        assert(v.last() == t);
        paths::lemma_extension(s, v);
        text::lemma_past_last_is(t, '.', 0);
        paths::lemma_file_name(t);
    }
    assert(r.last() == v.last());
    paths::lemma_segs_append(home, rest, true);
}

/// A text whose name has an extension keeps its name when `~` is expanded.
proof fn lemma_tilde_name(s: Seq<char>, home: Seq<char>)
    requires
        paths::extension(s) is Some,
    ensures
        ({
            let v = paths::key(s).segs;
            let x = host::tilde(s, home);
            &&& v.len() > 0
            &&& v.last() != paths::dot()
            &&& v.last() != paths::dot_dot()
            &&& paths::segs_from(x, true).len() > 0
            &&& paths::segs_from(x, true).last() == v.last()
        }),
{
    paths::lemma_file_name(s);
    if s == seq!['~'] {
        let t = seq!['~'];
        assert(!t.contains('/'));
        paths::lemma_one_seg(t, true);
        text::lemma_past_last_is(s, '.', 0);
        assert(paths::file_name(s) == Some(s));
    } else if text::starts_with(s, seq!['~', '/']) {
        lemma_home_name(s, home);
        assert(host::tilde(s, home) =~= home.push('/') + s.skip(2));
    }
}

/// A last component that is a name is last whether or not the text is first.
proof fn lemma_name_inner(x: Seq<char>)
    requires
        paths::segs_from(x, true).len() > 0,
        paths::segs_from(x, true).last() != paths::dot(),
    ensures
        paths::segs_from(x, false).len() > 0,
        paths::segs_from(x, false).last() == paths::segs_from(x, true).last(),
{
    lemma_segs_inner(x);
    let v = paths::segs_from(x, true);
    if v[0] == paths::dot() {
        assert(v.len() > 1) by {
            if v.len() == 1 {
                assert(v[0] == v.last());
            }
        }
    }
}

/// Resolving a text with a name that has one of the extensions gives such a
/// location.
proof fn lemma_resolve_ok(s: Seq<char>, at: Place, exts: Seq<Seq<char>>)
    requires
        paths::is_absolute(at.base),
        playlist::has_ext(s, exts),
    ensures
        is_resolved(playlist::resolve(s, at.base, at.home, at.disk), exts, at.disk),
{
    let v = paths::key(s).segs;
    let name = v.last();
    let x = host::tilde(s, at.home);
    lemma_tilde_name(s, at.home);
    lemma_name_inner(x);
    paths::lemma_extension(s, v);
    assert(playlist::has_ext(name, exts));
    let j = paths::join(at.base, x);
    let jk = paths::key(j);
    assert(jk.root && jk.segs.len() > 0 && jk.segs.last() == name) by {
        if !paths::is_absolute(x) {
            paths::lemma_join(at.base, x);
        }
    }
    paths::lemma_segs(j, true);
    paths::lemma_norm(jk.segs, true);
    let k = paths::norm_key(jk);
    assert(k.segs.last() == name && k.segs.len() > 0) by {
        let a = paths::norm(jk.segs.drop_last(), true);
        assert(k.segs == a.push(name));
    }
    assert(resolves_to(k, playlist::resolve(s, at.base, at.home, at.disk), exts, at.disk));
}

// --- what a written path reads back as --------------------------------------

/// True when none of the first `n` components of a path is an archive on disk.
pub open spec fn no_archive_in(k: PathKey, n: int, disk: Map<Seq<char>, FileKind>) -> bool {
    forall|i: int|
        0 <= i < n ==> !(vfs::archive_name(#[trigger] k.segs[i]) && vfs::file_on_disk(
            disk,
            paths::render(PathKey { root: k.root, segs: k.segs.take(i + 1) }),
        ))
}

proof fn lemma_split_skips(k: PathKey, n: int, i: int, disk: Map<Seq<char>, FileKind>)
    requires
        0 <= i <= n < k.segs.len(),
        no_archive_in(k, n, disk),
    ensures
        playlist::split_from(k, disk, i) == playlist::split_from(k, disk, n),
    decreases n - i,
{
    if i < n {
        assert(!(vfs::archive_name(k.segs[i]) && vfs::file_on_disk(
            disk,
            paths::render(PathKey { root: k.root, segs: k.segs.take(i + 1) }),
        )));
        lemma_split_skips(k, n, i + 1, disk);
    }
}

/// A file on disk that is added to a playlist is such a location: nothing on
/// the way to it is an archive.
pub proof fn lemma_added_file(p: Seq<char>, exts: Seq<Seq<char>>, disk: Map<Seq<char>, FileKind>)
    requires
        paths::is_plain(p),
        playlist::has_ext(p, exts),
        no_archive_in(paths::key(p), paths::key(p).segs.len() - 1, disk),
    ensures
        is_resolved(LocView::Fs(p), exts, disk),
{
    let k = paths::key(p);
    paths::lemma_file_name(p);
    paths::lemma_extension(p, k.segs);
    lemma_split_skips(k, k.segs.len() - 1, 0, disk);
    assert(resolves_to(k, LocView::Fs(p), exts, disk));
}

/// And so is a member of an archive on disk.
pub proof fn lemma_added_member(
    archive: Seq<char>,
    members: Seq<Seq<char>>,
    exts: Seq<Seq<char>>,
    disk: Map<Seq<char>, FileKind>,
)
    requires
        paths::is_plain(archive),
        paths::key(archive).segs.len() > 0,
        vfs::archive_name(paths::key(archive).segs.last()),
        vfs::file_on_disk(disk, archive),
        no_archive_in(paths::key(archive), paths::key(archive).segs.len() - 1, disk),
        members.len() > 0,
        paths::all_segs(members),
        forall|i: int|
            0 <= i < members.len() ==> #[trigger] members[i] != paths::dot() && members[i]
                != paths::dot_dot(),
        playlist::has_ext(members.last(), exts),
    ensures
        is_resolved(
            LocView::Zip { archive, inner: paths::join_segs(members) },
            exts,
            disk,
        ),
{
    let a = paths::key(archive);
    let n = a.segs.len() as int;
    let all = a.segs + members;
    let k = PathKey { root: true, segs: all };
    let l = LocView::Zip { archive, inner: paths::join_segs(members) };
    assert forall|i: int| 0 <= i < all.len() implies paths::is_seg(#[trigger] all[i]) && all[i]
        != paths::dot() && all[i] != paths::dot_dot() by {
        if i < n {
            assert(all[i] == a.segs[i]);
        } else {
            assert(all[i] == members[i - n]);
        }
    }
    assert forall|i: int| 0 <= i < n - 1 implies !(vfs::archive_name(#[trigger] k.segs[i])
        && vfs::file_on_disk(
        disk,
        paths::render(PathKey { root: k.root, segs: k.segs.take(i + 1) }),
    )) by {
        assert(k.segs[i] == a.segs[i]);
        assert(k.segs.take(i + 1) =~= a.segs.take(i + 1));
    }
    lemma_split_skips(k, n - 1, 0, disk);
    assert(all.take(n) =~= a.segs);
    assert(all.skip(n) =~= members);
    assert(all.last() == members.last());
    assert(k.segs[n - 1] == a.segs.last());
    assert(resolves_to(k, l, exts, disk));
}

/// A path is split nowhere, or at one of its components.
proof fn lemma_split_shape(k: PathKey, disk: Map<Seq<char>, FileKind>, i: int)
    requires
        0 <= i,
    ensures
        ({
            let l = playlist::split_from(k, disk, i);
            l == LocView::Fs(paths::render(k)) || exists|j: int|
                i <= j < k.segs.len() - 1 && l == (LocView::Zip {
                    archive: paths::render(PathKey { root: k.root, segs: #[trigger] k.segs.take(j + 1) }),
                    inner: paths::join_segs(k.segs.skip(j + 1)),
                })
        }),
    decreases k.segs.len() - i,
{
    if i + 1 < k.segs.len() {
        let front = paths::render(PathKey { root: k.root, segs: k.segs.take(i + 1) });
        if vfs::archive_name(k.segs[i]) && vfs::file_on_disk(disk, front) {
            assert(playlist::split_from(k, disk, i) == (LocView::Zip {
                archive: front,
                inner: paths::join_segs(k.segs.skip(i + 1)),
            }));
        } else {
            lemma_split_shape(k, disk, i + 1);
        }
    }
}

proof fn lemma_sub_norm(v: Seq<Seq<char>>, a: int, b: int)
    requires
        paths::is_norm(v, true),
        0 <= a <= b <= v.len(),
    ensures
        paths::all_segs(v.subrange(a, b)),
        forall|i: int| 0 <= i < b - a ==> #[trigger] v.subrange(a, b)[i] != paths::dot(),
        paths::is_norm(v.subrange(a, b), true),
{
    let w = v.subrange(a, b);
    assert forall|i: int| 0 <= i < w.len() implies paths::is_seg(#[trigger] w[i]) && w[i]
        != paths::dot() && w[i] != paths::dot_dot() by {
        assert(w[i] == v[a + i]);
    }
}

/// True for a location whose file (for a member, the archive) is somewhere below
/// a directory.
pub open spec fn is_below(l: LocView, base: Seq<char>) -> bool {
    paths::below(
        paths::key(
            match l {
                LocView::Fs(p) => p,
                LocView::Zip { archive, inner: _ } => archive,
            },
        ),
        paths::key(base),
    ) is Some
}

/// The text of a location before it is guarded: the whole path, or the part of
/// it below the base.
proof fn lemma_text_shape(k: PathKey, base: Seq<char>, l: LocView, exts: Seq<Seq<char>>, disk: Map<
    Seq<char>,
    FileKind,
>)
    requires
        paths::is_plain(base),
        resolves_to(k, l, exts, disk),
        raw::is_text(playlist::disk_part(l, base)),
    ensures
        playlist::path_text(l, base) == playlist::guarded(paths::render(k)) || ({
            let b = paths::key(base).segs;
            &&& b.len() < k.segs.len()
            &&& k.segs.take(b.len() as int) == b
            &&& playlist::path_text(l, base) == playlist::guarded(
                paths::join_segs(k.segs.skip(b.len() as int)),
            )
        }),
        is_below(l, base) ==> ({
            let b = paths::key(base).segs;
            &&& b.len() < k.segs.len()
            &&& k.segs.take(b.len() as int) == b
            &&& playlist::path_text(l, base) == playlist::guarded(
                paths::join_segs(k.segs.skip(b.len() as int)),
            )
        }),
{
    let b = paths::key(base).segs;
    let n = b.len() as int;
    let v = k.segs;
    lemma_split_shape(k, disk, 0);
    if l == LocView::Fs(paths::render(k)) {
        paths::lemma_key_of_render(k);
    } else {
        let j = choose|j: int|
            0 <= j < v.len() - 1 && l == (LocView::Zip {
                archive: paths::render(PathKey { root: k.root, segs: #[trigger] v.take(j + 1) }),
                inner: paths::join_segs(v.skip(j + 1)),
            });
        let a = v.take(j + 1);
        let r = v.skip(j + 1);
        let ak = PathKey { root: true, segs: a };
        assert(a =~= v.subrange(0, j + 1));
        assert(r =~= v.subrange(j + 1, v.len() as int));
        lemma_sub_norm(v, 0, j + 1);
        lemma_sub_norm(v, j + 1, v.len() as int);
        paths::lemma_key_of_render(ak);
        paths::lemma_join_last(r);
        let inner = paths::join_segs(r);
        match paths::below(ak, paths::key(base)) {
            Some(rel) => {
                assert(a.take(n) == b);
                assert(v.take(n) =~= a.take(n));
                let m = a.skip(n);
                paths::lemma_join_append(m, r);
                assert(m + r =~= v.skip(n));
            },
            None => {
                paths::lemma_join_append(a, r);
                assert(a + r =~= v);
                assert(paths::render(ak).push('/') + inner =~= paths::render(k));
            },
        }
    }
}

/// A guarded text of components is a relative path with these components.
proof fn lemma_relative_text(w: Seq<Seq<char>>, home: Seq<char>)
    requires
        w.len() > 0,
        paths::all_segs(w),
        forall|i: int| 0 <= i < w.len() ==> #[trigger] w[i] != paths::dot(),
    ensures
        ({
            let t = playlist::guarded(paths::join_segs(w));
            &&& t.len() > 0
            &&& t[0] != '#'
            &&& t.last() == w.last().last()
            &&& !paths::is_absolute(t)
            &&& host::tilde(t, home) == t
            &&& paths::segs_from(t, false) == w
            &&& paths::segs_from(t, true).len() > 0
            &&& paths::segs_from(t, true).last() == w.last()
        }),
{
    let r = paths::join_segs(w);
    let t = playlist::guarded(r);
    paths::lemma_join_last(w);
    assert(w[0] != paths::dot());
    paths::lemma_segs_of_join(w, false);
    paths::lemma_segs_of_join(w, true);
    let pre = seq!['.', '/'];
    assert(t == r || t == pre + r);
    assert(t.last() == r.last());
    assert(!paths::is_absolute(t)) by {
        assert(t[0] == r[0] || t[0] == '.');
    }
    // A guarded text is not taken for a home path.
    assert(host::tilde(t, home) == t) by {
        if t == r {
            assert(t != seq!['~']);
            assert(!text::starts_with(t, seq!['~', '/']));
        } else {
            assert(t[0] == '.');
            host::lemma_tilde_absolute(t, home);
        }
    }
    if t != r {
        let d = paths::dot();
        assert(t =~= d.push('/') + r);
        assert(!d.contains('/'));
        paths::lemma_one_seg(d, true);
        paths::lemma_one_seg(d, false);
        paths::lemma_segs_append(d, r, false);
        paths::lemma_segs_append(d, r, true);
        assert(Seq::<Seq<char>>::empty() + w =~= w);
        assert((seq![d] + w).last() == w.last());
    }
}

/// The text that a resolved location is written as names it again, has its
/// extension, and does not look like a comment.
proof fn lemma_written_path(l: LocView, at: Place, exts: Seq<Seq<char>>)
    requires
        paths::is_plain(at.base),
        exts_ok(exts),
        is_resolved(l, exts, at.disk),
        raw::is_text(playlist::disk_part(l, at.base)),
    ensures
        ({
            let t = playlist::path_text(l, at.base);
            &&& playlist::resolve(t, at.base, at.home, at.disk) == l
            &&& playlist::has_ext(t, exts)
            &&& t.len() > 0
            &&& t[0] != '#'
            &&& !text::is_space(t.last())
        }),
{
    let k = choose|k: PathKey| #[trigger] resolves_to(k, l, exts, at.disk);
    let v = k.segs;
    let base = at.base;
    let b = paths::key(base).segs;
    let n = b.len() as int;
    let t = playlist::path_text(l, base);
    let name = v.last();
    assert(paths::is_seg(v[v.len() - 1]));
    lemma_ext_edge(name, exts);
    paths::lemma_norm_id(v, true);
    lemma_text_shape(k, base, l, exts, at.disk);
    paths::lemma_join_last(v);
    if t == playlist::guarded(paths::render(k)) {
        let s = paths::render(k);
        assert(s[0] == '/');
        assert(t == s) by {
            if text::starts_with(s, seq!['~', '/']) {
                assert(s.take(2)[0] == '~');
            }
            if s == seq!['~'] {
                assert(s[0] == '~');
            }
        }
        host::lemma_tilde_absolute(t, at.home);
        paths::lemma_key_of_render(k);
        assert(paths::norm_key(k) == k);
        paths::lemma_extension(t, v);
        assert(t.last() == paths::join_segs(v).last());
    } else {
        let w = v.skip(n);
        assert(w =~= v.subrange(n, v.len() as int));
        lemma_sub_norm(v, n, v.len() as int);
        assert(w.last() == name);
        lemma_relative_text(w, at.home);
        paths::lemma_join(base, t);
        assert(b + w =~= v) by {
            assert(v.take(n) + v.skip(n) =~= v);
        }
        assert(playlist::resolved_key(t, base, at.home) =~= k);
        paths::lemma_extension(t, v);
    }
}

/// A playlist's directory can be moved as a whole: what is below it is written
/// relative to it, and read from another directory the text names what stands
/// at the same place below that one.
pub proof fn lemma_directory_moves(
    k: PathKey,
    l: LocView,
    exts: Seq<Seq<char>>,
    at: Place,
    to: Place,
)
    requires
        paths::is_plain(at.base),
        paths::is_plain(to.base),
        resolves_to(k, l, exts, at.disk),
        is_below(l, at.base),
        raw::is_text(playlist::disk_part(l, at.base)),
    ensures
        !paths::is_absolute(playlist::path_text(l, at.base)),
        playlist::resolve(playlist::path_text(l, at.base), to.base, to.home, to.disk)
            == playlist::split_from(
            PathKey {
                root: true,
                segs: paths::key(to.base).segs + k.segs.skip(
                    paths::key(at.base).segs.len() as int,
                ),
            },
            to.disk,
            0,
        ),
{
    let b = paths::key(at.base).segs;
    let c = paths::key(to.base).segs;
    let n = b.len() as int;
    let v = k.segs;
    lemma_text_shape(k, at.base, l, exts, at.disk);
    let w = v.skip(n);
    let t = playlist::path_text(l, at.base);
    assert(w =~= v.subrange(n, v.len() as int));
    lemma_sub_norm(v, n, v.len() as int);
    lemma_relative_text(w, to.home);
    paths::lemma_join(to.base, t);
    let all = c + w;
    assert(paths::is_norm(all, true)) by {
        assert forall|i: int| 0 <= i < all.len() implies paths::is_seg(#[trigger] all[i]) && all[i]
            != paths::dot() && all[i] != paths::dot_dot() by {
            if i < c.len() {
                assert(all[i] == c[i]);
            } else {
                assert(all[i] == w[i - c.len()]);
                assert(w[i - c.len()] == v[n + i - c.len()]);
            }
        }
    }
    paths::lemma_norm_id(all, true);
    assert(playlist::resolved_key(t, to.base, to.home) =~= PathKey { root: true, segs: all });
}

// --- kept lines -------------------------------------------------------------

/// True for a line that a playlist keeps without acting on it.
pub open spec fn is_kept(l: Seq<char>) -> bool {
    &&& l.len() > 0
    &&& text::trim(l) == l
    &&& conf::is_line(l)
    &&& l != "#EXTM3U"@
    &&& !text::starts_with(l, playlist::title_directive())
    &&& l[0] == '#' || !playlist::has_ext(l, playlist::midi_exts())
}

pub open spec fn all_kept(v: Seq<Seq<char>>) -> bool {
    forall|i: int| 0 <= i < v.len() ==> is_kept(#[trigger] v[i])
}

/// True when every kept line that could pin a SoundFont is directly followed by
/// a directive that takes its place, `then` being whether one follows the last.
pub open spec fn settled(v: Seq<Seq<char>>, then_directive: bool) -> bool {
    forall|i: int|
        0 <= i < v.len() && playlist::is_pin(#[trigger] v[i]) ==> if i + 1 < v.len() {
            playlist::is_directive(v[i + 1])
        } else {
            then_directive
        }
}

/// What every reading keeps true.
spec fn reading_ok(r: Reading, at: Place) -> bool {
    &&& all_kept(r.header)
    &&& all_kept(r.pending)
    &&& forall|i: int| 0 <= i < r.items.len() ==> item_ok(#[trigger] r.items[i], at)
    &&& r.title matches Some(t) ==> title_ok(t)
    &&& r.font matches Some((l, line)) ==> is_resolved(l, playlist::sf2_exts(), at.disk) && is_kept(
        line,
    )
}

pub open spec fn title_ok(t: Seq<char>) -> bool {
    t.len() > 0 && text::trim(t) == t && !t.contains('\n')
}

pub open spec fn item_ok(i: ItemView, at: Place) -> bool {
    &&& all_kept(i.extra)
    &&& is_resolved(i.midi, playlist::midi_exts(), at.disk)
    &&& i.soundfont matches Some(l) ==> is_resolved(l, playlist::sf2_exts(), at.disk)
}

proof fn lemma_all_kept_push(v: Seq<Seq<char>>, l: Seq<char>)
    requires
        all_kept(v),
        is_kept(l),
    ensures
        all_kept(v.push(l)),
{
}

/// What is left of a text without line feed has none.
proof fn lemma_sub_no_feed(s: Seq<char>, t: Seq<char>, a: int)
    requires
        !s.contains('\n'),
        0 <= a,
        a + t.len() <= s.len(),
        t == s.subrange(a, a + t.len()),
    ensures
        !t.contains('\n'),
{
    if t.contains('\n') {
        let i = choose|i: int| 0 <= i < t.len() && t[i] == '\n';
        assert(s[a + i] == '\n');
    }
}

proof fn lemma_trim_is_sub(s: Seq<char>) -> (a: int)
    ensures
        0 <= a,
        a + text::trim(s).len() <= s.len(),
        text::trim(s) == s.subrange(a, a + text::trim(s).len()),
    decreases s.len(),
{
    if s.len() > 0 && text::is_space(s[0]) {
        let t = s.drop_first();
        let b = lemma_trim_is_sub(t);
        assert(text::trim(s) == text::trim(t));
        assert(t.subrange(b, b + text::trim(t).len()) =~= s.subrange(
            b + 1,
            b + 1 + text::trim(t).len(),
        ));
        b + 1
    } else {
        assert(text::trim_start(s) == s);
        lemma_trim_end_is_take(s);
        let n = text::trim(s).len() as int;
        assert(s.take(n) =~= s.subrange(0, 0 + n));
        0
    }
}

proof fn lemma_trim_end_is_take(s: Seq<char>)
    ensures
        text::trim_end(s).len() <= s.len(),
        text::trim_end(s) == s.take(text::trim_end(s).len() as int),
    decreases s.len(),
{
    if s.len() > 0 && text::is_space(s.last()) {
        let t = s.drop_last();
        lemma_trim_end_is_take(t);
        let n = text::trim_end(t).len() as int;
        assert(t.take(n) =~= s.take(n));
    } else {
        assert(s.take(s.len() as int) =~= s);
    }
}

/// A line of a file holds no line feed.
proof fn lemma_lines_no_feed(s: Seq<char>)
    ensures
        forall|i: int| 0 <= i < text::lines(s).len() ==> !(#[trigger] text::lines(s)[i]).contains('\n'),
    decreases s.len(),
{
    text::lemma_find(s, '\n');
    let k = text::find(s, '\n');
    let v = text::lines(s);
    if s.len() == 0 {
    } else if k < s.len() {
        let rest = text::lines(s.skip(k + 1));
        lemma_lines_no_feed(s.skip(k + 1));
        let x = s.take(k);
        assert(!x.contains('\n')) by {
            if x.contains('\n') {
                let i = choose|i: int| 0 <= i < x.len() && x[i] == '\n';
                assert(s[i] == '\n');
            }
        }
        let y = text::strip_cr(x);
        assert(!y.contains('\n')) by {
            if y.contains('\n') {
                let i = choose|i: int| 0 <= i < y.len() && y[i] == '\n';
                assert(x[i] == '\n');
            }
        }
        assert forall|i: int| 0 <= i < v.len() implies !(#[trigger] v[i]).contains('\n') by {
            if i > 0 {
                assert(v[i] == rest[i - 1]);
            }
        }
    } else {
        assert(v =~= seq![s]);
        assert(!s.contains('\n'));
    }
}

/// A trimmed line is a line.
proof fn lemma_trimmed_is_line(s: Seq<char>)
    requires
        !s.contains('\n'),
    ensures
        conf::is_line(text::trim(s)),
        text::trim(text::trim(s)) == text::trim(s),
        !text::trim(s).contains('\n'),
{
    let a = lemma_trim_is_sub(s);
    lemma_sub_no_feed(s, text::trim(s), a);
    text::lemma_trim_edges(s);
}

proof fn lemma_step_ok(r: Reading, line: Seq<char>, at: Place)
    requires
        paths::is_absolute(at.base),
        reading_ok(r, at),
        text::trim(line) == line,
        conf::is_line(line),
    ensures
        reading_ok(r.step(line, at), at),
{
    let q = r.step(line, at);
    if line.len() == 0 {
        let h = r.header + r.pending;
        assert forall|i: int| 0 <= i < h.len() implies is_kept(#[trigger] h[i]) by {
            if i < r.header.len() {
                assert(h[i] == r.header[i]);
            } else {
                assert(h[i] == r.pending[i - r.header.len()]);
            }
        }
    } else if line == "#EXTM3U"@ {
    } else if text::starts_with(line, playlist::title_directive()) {
        let n = playlist::title_directive().len() as int;
        let x = line.skip(n);
        assert(x =~= line.subrange(n, n + x.len()));
        lemma_sub_no_feed(line, x, n);
        lemma_trimmed_is_line(x);
    } else if text::starts_with(line, playlist::sf_directive()) {
        reveal_strlit("#VOXFONT:sf=");
        assert(line[0] == '#') by {
            assert(line.take(playlist::sf_directive().len() as int)[0] == line[0]);
        }
        assert(is_kept(line));
        let v = text::trim(line.skip(playlist::sf_directive().len() as int));
        if r.font is Some {
            lemma_all_kept_push(r.pending, (r.font->0).1);
        }
        let d = r.drop_font();
        assert(all_kept(d.pending));
        if playlist::has_ext(v, playlist::sf2_exts()) {
            lemma_resolve_ok(v, at, playlist::sf2_exts());
        } else {
            lemma_all_kept_push(d.pending, line);
        }
    } else if line[0] == '#' || !playlist::has_ext(line, playlist::midi_exts()) {
        lemma_all_kept_push(r.pending, line);
    } else {
        lemma_resolve_ok(line, at, playlist::midi_exts());
        let item = q.items.last();
        assert(item_ok(item, at));
        assert forall|i: int| 0 <= i < q.items.len() implies item_ok(#[trigger] q.items[i], at) by {
            if i < r.items.len() {
                assert(q.items[i] == r.items[i]);
            }
        }
    }
}

proof fn lemma_reading_ok(lines: Seq<Seq<char>>, at: Place)
    requires
        paths::is_absolute(at.base),
        forall|i: int| 0 <= i < lines.len() ==> !(#[trigger] lines[i]).contains('\n'),
    ensures
        reading_ok(playlist::reading(lines, at), at),
    decreases lines.len(),
{
    if lines.len() > 0 {
        let v = lines.drop_last();
        assert forall|i: int| 0 <= i < v.len() implies !(#[trigger] v[i]).contains('\n') by {
            assert(v[i] == lines[i]);
        }
        lemma_reading_ok(v, at);
        assert(!lines[lines.len() - 1].contains('\n'));
        lemma_trimmed_is_line(lines.last());
        lemma_step_ok(playlist::reading(v, at), text::trim(lines.last()), at);
    }
}

/// True for a document that a playlist's text can hold.
pub open spec fn doc_ok(d: DocView, at: Place) -> bool {
    &&& all_kept(d.header)
    &&& all_kept(d.trailer)
    &&& forall|i: int| 0 <= i < d.items.len() ==> item_ok(#[trigger] d.items[i], at)
    &&& d.title matches Some(t) ==> title_ok(t)
}

/// What is read of any text is such a document.
pub proof fn lemma_parsed_ok(s: Seq<char>, at: Place)
    requires
        paths::is_absolute(at.base),
    ensures
        doc_ok(playlist::parsed(s, at), at),
{
    let t = playlist::without_bom(s);
    lemma_lines_no_feed(t);
    lemma_reading_ok(text::lines(t), at);
    let r = playlist::reading(text::lines(t), at);
    if r.font is Some {
        lemma_all_kept_push(r.pending, (r.font->0).1);
    }
}

// --- writing and reading back -----------------------------------------------

/// True when a reading has this title, header, items and pending lines, and
/// this line of a directive waiting for its track.
spec fn stands(
    r: Reading,
    title: Option<Seq<char>>,
    header: Seq<Seq<char>>,
    items: Seq<ItemView>,
    pending: Seq<Seq<char>>,
    font: Option<Seq<char>>,
) -> bool {
    &&& r.title == title
    &&& r.header == header
    &&& r.items == items
    &&& r.pending == pending
    &&& match r.font {
        Some((_, line)) => font == Some(line),
        None => font is None,
    }
}

/// How lines stand once they are read again: all pending, but for a last one
/// that pins a SoundFont, which waits for its track.
spec fn pending_of(v: Seq<Seq<char>>) -> Seq<Seq<char>> {
    if v.len() > 0 && playlist::is_pin(v.last()) {
        v.drop_last()
    } else {
        v
    }
}

spec fn waiting_of(v: Seq<Seq<char>>) -> Option<Seq<char>> {
    if v.len() > 0 && playlist::is_pin(v.last()) {
        Some(v.last())
    } else {
        None
    }
}

proof fn lemma_reading_push(v: Seq<Seq<char>>, line: Seq<char>, at: Place)
    ensures
        playlist::reading(v.push(line), at) == playlist::reading(v, at).step(text::trim(line), at),
{
    assert(v.push(line).drop_last() =~= v);
    assert(v.push(line).last() == line);
}

proof fn lemma_directives()
    ensures
        playlist::sf_directive().len() == 12,
        playlist::sf_directive()[0] == '#',
        playlist::sf_directive()[1] == 'V',
        playlist::title_directive().len() == 10,
        playlist::title_directive()[0] == '#',
        playlist::title_directive()[1] == 'P',
        "#EXTM3U"@.len() == 7,
        "#EXTM3U"@[0] == '#',
        "#EXTM3U"@[1] == 'E',
        conf::is_line("#EXTM3U"@),
        text::trim("#EXTM3U"@) == "#EXTM3U"@,
        !playlist::sf_directive().contains('\n'),
        !playlist::title_directive().contains('\n'),
        !text::is_space('#'),
{
    reveal_strlit("#VOXFONT:sf=");
    reveal_strlit("#PLAYLIST:");
    reveal_strlit("#EXTM3U");
}

/// Settled kept lines are kept again, in their order.
proof fn lemma_read_kept(
    v: Seq<Seq<char>>,
    lines: Seq<Seq<char>>,
    m: int,
    then_directive: bool,
    at: Place,
    title: Option<Seq<char>>,
    header: Seq<Seq<char>>,
    items: Seq<ItemView>,
)
    requires
        all_kept(lines),
        settled(lines, then_directive),
        0 <= m <= lines.len(),
        stands(playlist::reading(v, at), title, header, items, seq![], None),
    ensures
        stands(
            playlist::reading(v + lines.take(m), at),
            title,
            header,
            items,
            pending_of(lines.take(m)),
            waiting_of(lines.take(m)),
        ),
    decreases m,
{
    if m == 0 {
        assert(v + lines.take(0) =~= v);
        assert(lines.take(0) =~= seq![]);
    } else {
        lemma_read_kept(v, lines, m - 1, then_directive, at, title, header, items);
        let a = lines.take(m - 1);
        let b = lines.take(m);
        let x = lines[m - 1];
        assert(b =~= a.push(x));
        assert(v + b =~= (v + a).push(x));
        lemma_reading_push(v + a, x, at);
        assert(is_kept(x));
        lemma_directives();
        let r = playlist::reading(v + a, at);
        let q = r.step(x, at);
        if m >= 2 && playlist::is_pin(lines[m - 2]) {
            assert(a.last() == lines[m - 2]);
            assert(playlist::is_directive(lines[m - 2 + 1]));
            assert(playlist::is_directive(x));
            assert(a.drop_last().push(a.last()) =~= a);
            assert(r.drop_font().pending == a);
        } else {
            assert(m >= 2 ==> a.last() == lines[m - 2]);
            assert(pending_of(a) == a);
            assert(r.drop_font() == r);
        }
        if playlist::is_directive(x) {
            assert(x != "#EXTM3U"@) by {
                assert(x.take(12)[1] == 'V');
            }
            if playlist::is_pin(x) {
                assert(q.pending == a);
                assert(b.drop_last() =~= a);
            } else {
                assert(q.pending == a.push(x));
            }
        } else {
            assert(q.pending == a.push(x));
        }
    }
}

/// True when the text a location is written as stays one line with nothing to
/// trim.
pub open spec fn writable(l: LocView, base: Seq<char>) -> bool {
    let t = playlist::path_text(l, base);
    raw::is_text(playlist::disk_part(l, base)) && !t.contains('\n') && (t.len() > 0
        ==> !text::is_space(t[0]))
}

/// True when the paths of an item stay one line each.
pub open spec fn paths_writable(i: ItemView, base: Seq<char>) -> bool {
    &&& writable(i.midi, base)
    &&& i.soundfont matches Some(l) ==> writable(l, base)
}

/// True when an item can be written so that it reads back with its kept lines:
/// its paths stay one line each, and its kept lines are settled.
pub open spec fn item_writable(i: ItemView, base: Seq<char>) -> bool {
    paths_writable(i, base) && settled(i.extra, i.soundfont is Some)
}

/// Settled lines stay where they are.
proof fn lemma_settled_tame(v: Seq<Seq<char>>)
    requires
        settled(v, false),
    ensures
        playlist::tame(v) == v,
        playlist::stray(v) == Seq::<Seq<char>>::empty(),
    decreases v.len(),
{
    let n = v.len() as int;
    if n > 0 {
        assert(v[n - 1] == v.last());
        if !playlist::is_directive(v.last()) {
            let u = v.drop_last();
            assert(settled(u, false)) by {
                assert forall|i: int| 0 <= i < u.len() && playlist::is_pin(#[trigger] u[i]) implies if i
                    + 1 < u.len() {
                    playlist::is_directive(u[i + 1])
                } else {
                    false
                } by {
                    assert(playlist::is_pin(v[i]));
                    assert(playlist::is_directive(v[i + 1]));
                }
            }
            lemma_settled_tame(u);
            assert(u.push(v.last()) =~= v);
        }
    }
}

/// Reading the line of a track takes the waiting SoundFont and lines with it.
proof fn lemma_track_line(r: Reading, l: LocView, at: Place)
    requires
        paths::is_plain(at.base),
        is_resolved(l, playlist::midi_exts(), at.disk),
        writable(l, at.base),
    ensures
        ({
            let t = playlist::path_text(l, at.base);
            &&& conf::is_line(t)
            &&& text::trim(t) == t
            &&& r.step(t, at) == (Reading {
                items: r.items.push(
                    ItemView {
                        midi: l,
                        soundfont: match r.font {
                            Some((f, _)) => Some(f),
                            None => None,
                        },
                        extra: r.pending,
                    },
                ),
                pending: seq![],
                font: None,
                ..r
            })
        }),
{
    lemma_exts_ok();
    lemma_directives();
    let t = playlist::path_text(l, at.base);
    lemma_written_path(l, at, playlist::midi_exts());
    text::lemma_trim_id(t);
    assert(!text::starts_with(t, playlist::title_directive())) by {
        if text::starts_with(t, playlist::title_directive()) {
            assert(t.take(10)[0] == '#');
        }
    }
    assert(!text::starts_with(t, playlist::sf_directive())) by {
        if text::starts_with(t, playlist::sf_directive()) {
            assert(t.take(12)[0] == '#');
        }
    }
}

/// Reading the directive of a pinned item takes the place of one before it.
proof fn lemma_pin_line(r: Reading, l: LocView, at: Place)
    requires
        paths::is_plain(at.base),
        is_resolved(l, playlist::sf2_exts(), at.disk),
        writable(l, at.base),
    ensures
        ({
            let line = playlist::sf_directive() + playlist::path_text(l, at.base);
            &&& conf::is_line(line)
            &&& text::trim(line) == line
            &&& r.step(line, at) == (Reading { font: Some((l, line)), ..r.drop_font() })
        }),
{
    lemma_exts_ok();
    lemma_directives();
    let u = playlist::path_text(l, at.base);
    lemma_written_path(l, at, playlist::sf2_exts());
    text::lemma_trim_id(u);
    let line = playlist::sf_directive() + u;
    assert(line[0] == '#' && line[1] == 'V' && line.last() == u.last());
    text::lemma_trim_id(line);
    assert(line.take(12) =~= playlist::sf_directive());
    assert(line.skip(12) =~= u);
    assert(conf::is_line(line)) by {
        if line.contains('\n') {
            let i = choose|i: int| 0 <= i < line.len() && line[i] == '\n';
            if i < 12 {
                assert(playlist::sf_directive()[i] == '\n');
            } else {
                assert(u[i - 12] == '\n');
            }
        }
    }
    assert(!text::starts_with(line, playlist::title_directive())) by {
        if text::starts_with(line, playlist::title_directive()) {
            assert(line.take(10)[1] == 'P');
        }
    }
}

/// The lines of an item are lines.
proof fn lemma_item_lines_ok(item: ItemView, at: Place)
    requires
        paths::is_plain(at.base),
        item_ok(item, at),
        paths_writable(item, at.base),
    ensures
        conf::are_lines(playlist::item_lines(item, at.base)),
{
    let kept = playlist::notes(item);
    let w = playlist::item_lines(item, at.base);
    lemma_tame_kept(item.extra);
    let r = playlist::nothing_read();
    lemma_track_line(r, item.midi, at);
    if item.soundfont is Some {
        lemma_pin_line(r, item.soundfont->0, at);
    }
    assert forall|i: int| 0 <= i < w.len() implies conf::is_line(#[trigger] w[i]) by {
        if i < kept.len() {
            assert(w[i] == kept[i]);
            assert(is_kept(kept[i]));
        }
    }
}

/// Reading the lines of an item gives the item.
proof fn lemma_read_item(
    v: Seq<Seq<char>>,
    item: ItemView,
    at: Place,
    title: Option<Seq<char>>,
    header: Seq<Seq<char>>,
    items: Seq<ItemView>,
)
    requires
        paths::is_plain(at.base),
        item_ok(item, at),
        item_writable(item, at.base),
        stands(playlist::reading(v, at), title, header, items, seq![], None),
    ensures
        stands(
            playlist::reading(v + playlist::item_lines(item, at.base), at),
            title,
            header,
            items.push(item),
            seq![],
            None,
        ),
{
    let base = at.base;
    let n = item.extra.len() as int;
    lemma_read_kept(v, item.extra, n, item.soundfont is Some, at, title, header, items);
    assert(item.extra.take(n) =~= item.extra);
    let v1 = v + item.extra;
    let r1 = playlist::reading(v1, at);
    let t = playlist::path_text(item.midi, base);
    let w = playlist::item_lines(item, base);
    match item.soundfont {
        Some(sf) => {
            let line = playlist::sf_directive() + playlist::path_text(sf, base);
            lemma_pin_line(r1, sf, at);
            let v2 = v1.push(line);
            lemma_reading_push(v1, line, at);
            let r2 = playlist::reading(v2, at);
            assert(r1.drop_font().pending == item.extra) by {
                if waiting_of(item.extra) is Some {
                    assert(item.extra.drop_last().push(item.extra.last()) =~= item.extra);
                }
            }
            lemma_track_line(r2, item.midi, at);
            lemma_reading_push(v2, t, at);
            assert(v2.push(t) =~= v + w);
        },
        None => {
            assert(waiting_of(item.extra) is None) by {
                if waiting_of(item.extra) is Some {
                    assert(playlist::is_pin(item.extra[n - 1]));
                }
            }
            lemma_settled_tame(item.extra);
            lemma_track_line(r1, item.midi, at);
            lemma_reading_push(v1, t, at);
            assert(v1.push(t) =~= v + w);
        },
    }
}

proof fn lemma_read_items(
    v: Seq<Seq<char>>,
    d: DocView,
    n: int,
    at: Place,
)
    requires
        paths::is_plain(at.base),
        doc_ok(d, at),
        forall|i: int| 0 <= i < d.items.len() ==> item_writable(#[trigger] d.items[i], at.base),
        stands(playlist::reading(v, at), d.title, d.header, seq![], seq![], None),
        0 <= n <= d.items.len(),
    ensures
        stands(
            playlist::reading(v + playlist::items_lines(d.items, n, at.base), at),
            d.title,
            d.header,
            d.items.take(n),
            seq![],
            None,
        ),
    decreases n,
{
    if n == 0 {
        assert(v + playlist::items_lines(d.items, 0, at.base) =~= v);
        assert(d.items.take(0) =~= seq![]);
    } else {
        lemma_read_items(v, d, n - 1, at);
        let a = playlist::items_lines(d.items, n - 1, at.base);
        let item = d.items[n - 1];
        let w = playlist::item_lines(item, at.base);
        lemma_read_item(v + a, item, at, d.title, d.header, d.items.take(n - 1));
        assert(v + (a + w) =~= (v + a) + w);
        assert(d.items.take(n) =~= d.items.take(n - 1).push(item));
    }
}

/// The first line and the title.
spec fn title_lines(title: Option<Seq<char>>) -> Seq<Seq<char>> {
    seq!["#EXTM3U"@] + match title {
        Some(t) => seq![playlist::title_directive() + t],
        None => seq![],
    }
}

/// The first line and the title are lines, and reading them gives the title.
proof fn lemma_read_title(title: Option<Seq<char>>, at: Place)
    requires
        title matches Some(t) ==> title_ok(t),
    ensures
        conf::are_lines(title_lines(title)),
        stands(playlist::reading(title_lines(title), at), title, seq![], seq![], seq![], None),
{
    lemma_directives();
    let none = Seq::<Seq<char>>::empty();
    let first = none.push("#EXTM3U"@);
    lemma_reading_push(none, "#EXTM3U"@, at);
    assert(stands(playlist::reading(first, at), None, seq![], seq![], seq![], None));
    let v = title_lines(title);
    match title {
        Some(t) => {
            let line = playlist::title_directive() + t;
            text::lemma_trim_edges(t);
            assert(line[0] == '#' && line[1] == 'P' && line.last() == t.last());
            text::lemma_trim_id(line);
            assert(line.take(10) =~= playlist::title_directive());
            assert(line.skip(10) =~= t);
            assert(conf::is_line(line)) by {
                if line.contains('\n') {
                    let i = choose|i: int| 0 <= i < line.len() && line[i] == '\n';
                    if i < 10 {
                        assert(playlist::title_directive()[i] == '\n');
                    } else {
                        assert(t[i - 10] == '\n');
                    }
                }
            }
            lemma_reading_push(first, line, at);
            assert(v =~= first.push(line));
        },
        None => {
            assert(v =~= first);
        },
    }
}

/// Reading the lines in front of the items gives the title and the header.
proof fn lemma_read_top(d: DocView, at: Place)
    requires
        doc_ok(d, at),
        settled(d.header, false),
    ensures
        stands(
            playlist::reading(playlist::top_lines(d.title, d.header), at),
            d.title,
            d.header,
            seq![],
            seq![],
            None,
        ),
{
    let v1 = title_lines(d.title);
    lemma_read_title(d.title, at);
    let n = d.header.len() as int;
    lemma_read_kept(v1, d.header, n, false, at, d.title, seq![], seq![]);
    assert(d.header.take(n) =~= d.header);
    assert(waiting_of(d.header) is None) by {
        if waiting_of(d.header) is Some {
            assert(playlist::is_pin(d.header[n - 1]));
        }
    }
    let v2 = v1 + d.header;
    let top = playlist::top_lines(d.title, d.header);
    let blank = Seq::<char>::empty();
    if n > 0 {
        lemma_reading_push(v2, blank, at);
        assert(top =~= v2.push(blank));
        assert(Seq::<Seq<char>>::empty() + d.header =~= d.header);
    } else {
        assert(top =~= v1);
        assert(v2 =~= v1);
        assert(d.header =~= seq![]);
    }
}

/// Lines that are kept stay so wherever they are written.
proof fn lemma_tame_kept(v: Seq<Seq<char>>)
    requires
        all_kept(v),
    ensures
        all_kept(playlist::tame(v)),
        all_kept(playlist::stray(v)),
    decreases v.len(),
{
    if v.len() > 0 {
        let u = v.drop_last();
        assert(is_kept(v[v.len() - 1]));
        assert forall|i: int| 0 <= i < u.len() implies is_kept(#[trigger] u[i]) by {
            assert(u[i] == v[i]);
        }
        lemma_tame_kept(u);
    }
}

proof fn lemma_lines_append(a: Seq<Seq<char>>, b: Seq<Seq<char>>)
    requires
        conf::are_lines(a),
        conf::are_lines(b),
    ensures
        conf::are_lines(a + b),
{
    let v = a + b;
    assert forall|i: int| 0 <= i < v.len() implies conf::is_line(#[trigger] v[i]) by {
        if i < a.len() {
            assert(v[i] == a[i]);
        } else {
            assert(v[i] == b[i - a.len()]);
        }
    }
}

proof fn lemma_kept_are_lines(v: Seq<Seq<char>>)
    requires
        all_kept(v),
    ensures
        conf::are_lines(v),
{
    assert forall|i: int| 0 <= i < v.len() implies conf::is_line(#[trigger] v[i]) by {
        assert(is_kept(v[i]));
    }
}

proof fn lemma_items_lines_ok(s: Seq<ItemView>, n: int, at: Place)
    requires
        paths::is_plain(at.base),
        0 <= n <= s.len(),
        forall|i: int| 0 <= i < s.len() ==> item_ok(#[trigger] s[i], at),
        forall|i: int| 0 <= i < s.len() ==> paths_writable(#[trigger] s[i], at.base),
    ensures
        conf::are_lines(playlist::items_lines(s, n, at.base)),
        all_kept(playlist::items_stray(s, n)),
    decreases n,
{
    if n > 0 {
        let item = s[n - 1];
        lemma_items_lines_ok(s, n - 1, at);
        assert(item_ok(item, at));
        assert(paths_writable(item, at.base));
        lemma_item_lines_ok(item, at);
        lemma_lines_append(
            playlist::items_lines(s, n - 1, at.base),
            playlist::item_lines(item, at.base),
        );
        lemma_tame_kept(item.extra);
        let a = playlist::items_stray(s, n - 1);
        let v = playlist::items_stray(s, n);
        assert forall|i: int| 0 <= i < v.len() implies is_kept(#[trigger] v[i]) by {
            if i < a.len() {
                assert(v[i] == a[i]);
            } else {
                assert(v[i] == playlist::stray(item.extra)[i - a.len()]);
            }
        }
    }
}

/// True when the paths of a document stay one line each.
pub open spec fn doc_paths_writable(d: DocView, base: Seq<char>) -> bool {
    forall|i: int| 0 <= i < d.items.len() ==> paths_writable(#[trigger] d.items[i], base)
}

/// The lines of a document are the lines of the text they are written as.
proof fn lemma_doc_text(d: DocView, at: Place)
    requires
        paths::is_plain(at.base),
        doc_ok(d, at),
        doc_paths_writable(d, at.base),
    ensures
        ({
            let all = playlist::doc_lines(d, at.base);
            text::lines(playlist::without_bom(conf::unlines(all))) == all
        }),
{
    lemma_directives();
    let n = d.items.len() as int;
    let kept = playlist::top_notes(d.header, d.items);
    let head = playlist::top_stray(d.header, d.items);
    let blank = if kept.len() > 0 {
        seq![Seq::<char>::empty()]
    } else {
        seq![]
    };
    lemma_read_title(d.title, at);
    lemma_tame_kept(d.header);
    lemma_kept_are_lines(kept);
    lemma_kept_are_lines(head);
    lemma_lines_append(title_lines(d.title), kept);
    lemma_lines_append(title_lines(d.title) + kept, blank);
    let top = playlist::top_lines(d.title, kept);
    assert(top =~= title_lines(d.title) + kept + blank);
    lemma_items_lines_ok(d.items, n, at);
    let mid = playlist::items_lines(d.items, n, at.base);
    lemma_kept_are_lines(d.trailer);
    lemma_kept_are_lines(playlist::items_stray(d.items, n));
    lemma_lines_append(top, mid);
    lemma_lines_append(top + mid, d.trailer);
    lemma_lines_append(top + mid + d.trailer, head);
    lemma_lines_append(
        top + mid + d.trailer + head,
        playlist::items_stray(d.items, n),
    );
    let all = playlist::doc_lines(d, at.base);
    conf::lemma_lines_unlines(all);
    // The text starts with the first line, not with a byte order mark.
    let s = conf::unlines(all);
    assert(s.len() > 0 && s[0] == '#') by {
        let x = all[0];
        let rest = all.drop_first();
        conf::lemma_unlines_append(seq![x], rest);
        assert(seq![x] + rest =~= all);
        assert(seq![x].drop_last() =~= seq![]);
        reveal_with_fuel(conf::unlines, 2);
        assert(conf::unlines(seq![x]) =~= x.push('\n'));
        assert(x == "#EXTM3U"@);
    }
}

/// True when a document can be written so that all of it reads back: its paths
/// stay one line each, and a kept line that could pin a SoundFont is directly
/// followed by the directive that takes its place, or ends the file.
pub open spec fn doc_writable(d: DocView, base: Seq<char>) -> bool {
    &&& settled(d.header, false)
    &&& forall|i: int| 0 <= i < d.items.len() ==> item_writable(#[trigger] d.items[i], base)
    &&& settled(d.trailer, true)
}

proof fn lemma_no_stray(s: Seq<ItemView>, n: int, base: Seq<char>)
    requires
        0 <= n <= s.len(),
        forall|i: int| 0 <= i < s.len() ==> item_writable(#[trigger] s[i], base),
    ensures
        playlist::items_stray(s, n) == Seq::<Seq<char>>::empty(),
    decreases n,
{
    if n > 0 {
        lemma_no_stray(s, n - 1, base);
        assert(item_writable(s[n - 1], base));
        if s[n - 1].soundfont is None {
            lemma_settled_tame(s[n - 1].extra);
        }
        assert(playlist::items_stray(s, n) =~= seq![]);
    } else {
        assert(playlist::items_stray(s, n) =~= seq![]);
    }
}

/// Saving a playlist and reading it again, from the same place, loses nothing:
/// title, header, items with their fonts and notes, and trailing lines all come
/// back.
pub proof fn lemma_doc_round_trip(d: DocView, at: Place)
    requires
        paths::is_plain(at.base),
        doc_ok(d, at),
        doc_writable(d, at.base),
    ensures
        ({
            let e = playlist::parsed(conf::unlines(playlist::doc_lines(d, at.base)), at);
            e.title == d.title && e.header == d.header && e.items == d.items && e.trailer
                == d.trailer
        }),
{
    let top = playlist::top_lines(d.title, d.header);
    lemma_read_top(d, at);
    let n = d.items.len() as int;
    lemma_read_items(top, d, n, at);
    assert(d.items.take(n) =~= d.items);
    let v = top + playlist::items_lines(d.items, n, at.base);
    lemma_read_rest(v, d, at);
    lemma_settled_tame(d.header);
    lemma_no_stray(d.items, n, at.base);
    let all = playlist::doc_lines(d, at.base);
    assert(playlist::top_notes(d.header, d.items) == d.header);
    assert(playlist::top_stray(d.header, d.items) == Seq::<Seq<char>>::empty());
    assert(all =~= v + d.trailer);
    assert forall|i: int| 0 <= i < d.items.len() implies paths_writable(
        #[trigger] d.items[i],
        at.base,
    ) by {
        assert(item_writable(d.items[i], at.base));
    }
    lemma_doc_text(d, at);
}

/// Reading the lines after the last item.
proof fn lemma_read_rest(v: Seq<Seq<char>>, d: DocView, at: Place)
    requires
        doc_ok(d, at),
        settled(d.trailer, true),
        stands(playlist::reading(v, at), d.title, d.header, d.items, seq![], None),
    ensures
        ({
            let e = playlist::reading(v + d.trailer, at).finish();
            e.title == d.title && e.header == d.header && e.items == d.items && e.trailer
                == d.trailer
        }),
{
    let m = d.trailer.len() as int;
    lemma_read_kept(v, d.trailer, m, true, at, d.title, d.header, d.items);
    assert(d.trailer.take(m) =~= d.trailer);
    if waiting_of(d.trailer) is Some {
        assert(d.trailer.drop_last().push(d.trailer.last()) =~= d.trailer);
    }
}

// --- tracks and fonts -------------------------------------------------------

/// The tracks of a list, each with the SoundFont it is pinned to.
pub open spec fn pairs(s: Seq<ItemView>) -> Seq<(LocView, Option<LocView>)> {
    s.map_values(|i: ItemView| (i.midi, i.soundfont))
}

/// A kept line adds no track and sets no title; whether a SoundFont waits after
/// it depends on the line alone where it is a directive.
proof fn lemma_step_kept(r: Reading, x: Seq<char>, at: Place)
    requires
        is_kept(x),
    ensures
        ({
            let q = r.step(x, at);
            &&& q.items == r.items
            &&& q.title == r.title
            &&& playlist::is_directive(x) && !playlist::is_pin(x) ==> q.font is None
            &&& !playlist::is_directive(x) ==> q.font == r.font
        }),
{
    lemma_directives();
}

proof fn lemma_read_any(v: Seq<Seq<char>>, lines: Seq<Seq<char>>, at: Place)
    requires
        all_kept(lines),
    ensures
        playlist::reading(v + lines, at).items == playlist::reading(v, at).items,
        playlist::reading(v + lines, at).title == playlist::reading(v, at).title,
    decreases lines.len(),
{
    if lines.len() == 0 {
        assert(v + lines =~= v);
    } else {
        let u = lines.drop_last();
        let x = lines.last();
        assert forall|i: int| 0 <= i < u.len() implies is_kept(#[trigger] u[i]) by {
            assert(u[i] == lines[i]);
        }
        lemma_read_any(v, u, at);
        assert(is_kept(lines[lines.len() - 1]));
        lemma_step_kept(playlist::reading(v + u, at), x, at);
        assert(v + lines =~= (v + u).push(x));
        lemma_reading_push(v + u, x, at);
    }
}

/// Kept lines that stay where they are leave no SoundFont waiting.
proof fn lemma_read_tame(v: Seq<Seq<char>>, lines: Seq<Seq<char>>, at: Place)
    requires
        all_kept(lines),
        playlist::reading(v, at).font is None,
    ensures
        playlist::reading(v + playlist::tame(lines), at).items == playlist::reading(v, at).items,
        playlist::reading(v + playlist::tame(lines), at).title == playlist::reading(v, at).title,
        playlist::reading(v + playlist::tame(lines), at).font is None,
    decreases lines.len(),
{
    if lines.len() == 0 {
        assert(v + playlist::tame(lines) =~= v);
    } else {
        let u = lines.drop_last();
        let x = lines.last();
        assert forall|i: int| 0 <= i < u.len() implies is_kept(#[trigger] u[i]) by {
            assert(u[i] == lines[i]);
        }
        assert(is_kept(lines[lines.len() - 1]));
        lemma_read_tame(v, u, at);
        if playlist::is_directive(x) {
            if !playlist::is_pin(x) {
                lemma_read_any(v, lines, at);
                lemma_step_kept(playlist::reading(v + u, at), x, at);
                assert(v + lines =~= (v + u).push(x));
                lemma_reading_push(v + u, x, at);
            }
        } else {
            let w = playlist::tame(u);
            lemma_step_kept(playlist::reading(v + w, at), x, at);
            assert(v + w.push(x) =~= (v + w).push(x));
            lemma_reading_push(v + w, x, at);
        }
    }
}

/// Kept lines with a directive that names no SoundFont leave none waiting,
/// whatever waited before them.
proof fn lemma_read_ending(v: Seq<Seq<char>>, lines: Seq<Seq<char>>, at: Place)
    requires
        all_kept(lines),
        playlist::ends_waiting(lines),
    ensures
        playlist::reading(v + playlist::tame(lines), at).items == playlist::reading(v, at).items,
        playlist::reading(v + playlist::tame(lines), at).title == playlist::reading(v, at).title,
        playlist::reading(v + playlist::tame(lines), at).font is None,
    decreases lines.len(),
{
    let u = lines.drop_last();
    let x = lines.last();
    let k = choose|k: int|
        0 <= k < lines.len() && playlist::is_directive(#[trigger] lines[k]) && !playlist::is_pin(
            lines[k],
        );
    assert forall|i: int| 0 <= i < u.len() implies is_kept(#[trigger] u[i]) by {
        assert(u[i] == lines[i]);
    }
    assert(is_kept(lines[lines.len() - 1]));
    if playlist::is_directive(x) && !playlist::is_pin(x) {
        lemma_read_any(v, lines, at);
        lemma_step_kept(playlist::reading(v + u, at), x, at);
        assert(v + lines =~= (v + u).push(x));
        lemma_reading_push(v + u, x, at);
    } else {
        assert(u[k] == lines[k]);
        lemma_read_ending(v, u, at);
        if !playlist::is_directive(x) {
            let w = playlist::tame(u);
            lemma_step_kept(playlist::reading(v + w, at), x, at);
            assert(v + w.push(x) =~= (v + w).push(x));
            lemma_reading_push(v + w, x, at);
        }
    }
}

/// Reading the lines of an item gives its track and its SoundFont, and leaves
/// none waiting. One that waits before it is not taken, if the item's lines hold
/// a directive that takes its place.
proof fn lemma_read_pair(v: Seq<Seq<char>>, item: ItemView, at: Place)
    requires
        paths::is_plain(at.base),
        item_ok(item, at),
        paths_writable(item, at.base),
        playlist::reading(v, at).font is None || item.soundfont is Some || playlist::ends_waiting(
            item.extra,
        ),
    ensures
        ({
            let r = playlist::reading(v, at);
            let q = playlist::reading(v + playlist::item_lines(item, at.base), at);
            &&& pairs(q.items) == pairs(r.items).push((item.midi, item.soundfont))
            &&& q.title == r.title
            &&& q.font is None
        }),
{
    let base = at.base;
    let r = playlist::reading(v, at);
    let t = playlist::path_text(item.midi, base);
    let w = playlist::item_lines(item, base);
    let v1 = v + playlist::notes(item);
    let r1 = playlist::reading(v1, at);
    match item.soundfont {
        Some(sf) => {
            let line = playlist::sf_directive() + playlist::path_text(sf, base);
            lemma_read_any(v, item.extra, at);
            lemma_pin_line(r1, sf, at);
            let v2 = v1.push(line);
            lemma_reading_push(v1, line, at);
            lemma_track_line(playlist::reading(v2, at), item.midi, at);
            lemma_reading_push(v2, t, at);
            assert(v2.push(t) =~= v + w);
        },
        None => {
            if r.font is None {
                lemma_read_tame(v, item.extra, at);
            } else {
                lemma_read_ending(v, item.extra, at);
            }
            lemma_track_line(r1, item.midi, at);
            lemma_reading_push(v1, t, at);
            assert(v1.push(t) =~= v + w);
        },
    }
    let q = playlist::reading(v + w, at);
    assert(pairs(q.items) =~= pairs(r.items).push((item.midi, item.soundfont)));
}

proof fn lemma_read_pairs(v: Seq<Seq<char>>, s: Seq<ItemView>, n: int, at: Place)
    requires
        paths::is_plain(at.base),
        0 <= n <= s.len(),
        forall|i: int| 0 <= i < s.len() ==> item_ok(#[trigger] s[i], at),
        forall|i: int| 0 <= i < s.len() ==> paths_writable(#[trigger] s[i], at.base),
        playlist::reading(v, at).items.len() == 0,
        playlist::reading(v, at).font is None || playlist::top_is_safe(s),
    ensures
        ({
            let r = playlist::reading(v, at);
            let q = playlist::reading(v + playlist::items_lines(s, n, at.base), at);
            &&& pairs(q.items) == pairs(s.take(n))
            &&& q.title == r.title
            &&& n > 0 ==> q.font is None
        }),
    decreases n,
{
    let lines = playlist::items_lines(s, n, at.base);
    if n == 0 {
        assert(v + lines =~= v);
        assert(pairs(playlist::reading(v, at).items) =~= pairs(s.take(0)));
    } else {
        let item = s[n - 1];
        let a = playlist::items_lines(s, n - 1, at.base);
        lemma_read_pairs(v, s, n - 1, at);
        assert(item_ok(item, at));
        assert(paths_writable(item, at.base));
        lemma_read_pair(v + a, item, at);
        assert(v + lines =~= (v + a) + playlist::item_lines(item, at.base));
        assert(pairs(s.take(n)) =~= pairs(s.take(n - 1)).push((item.midi, item.soundfont)));
    }
}

/// Whatever lines a playlist keeps, saving it and reading it again, from the
/// same place, gives the same tracks in the same order, each with the SoundFont
/// it is pinned to or with none, and the same title.
pub proof fn lemma_pairs_round_trip(d: DocView, at: Place)
    requires
        paths::is_plain(at.base),
        doc_ok(d, at),
        doc_paths_writable(d, at.base),
    ensures
        ({
            let e = playlist::parsed(conf::unlines(playlist::doc_lines(d, at.base)), at);
            pairs(e.items) == pairs(d.items) && e.title == d.title
        }),
{
    let n = d.items.len() as int;
    let v1 = title_lines(d.title);
    let kept = playlist::top_notes(d.header, d.items);
    lemma_read_title(d.title, at);
    if playlist::top_is_safe(d.items) {
        lemma_read_any(v1, d.header, at);
    } else {
        lemma_read_tame(v1, d.header, at);
    }
    let top = playlist::top_lines(d.title, kept);
    let blank = Seq::<char>::empty();
    if kept.len() > 0 {
        lemma_reading_push(v1 + kept, blank, at);
        assert(top =~= (v1 + kept).push(blank));
    } else {
        assert(top =~= v1 + kept);
    }
    lemma_read_pairs(top, d.items, n, at);
    assert(d.items.take(n) =~= d.items);
    let v2 = top + playlist::items_lines(d.items, n, at.base);
    let v3 = v2 + d.trailer;
    let head = playlist::top_stray(d.header, d.items);
    let tail = playlist::items_stray(d.items, n);
    lemma_tame_kept(d.header);
    lemma_items_lines_ok(d.items, n, at);
    lemma_read_any(v2, d.trailer, at);
    lemma_read_any(v3, head, at);
    lemma_read_any(v3 + head, tail, at);
    lemma_doc_text(d, at);
}

/// The header is written back at the top as it was read, wherever it can pin
/// nothing there: above a pinned item, say.
pub proof fn lemma_header_stays(d: DocView, base: Seq<char>)
    requires
        playlist::top_is_safe(d.items),
    ensures
        ({
            let v = playlist::doc_lines(d, base);
            let k = if d.title is Some { 2int } else { 1 };
            v.len() >= k + d.header.len() && v.subrange(k, k + d.header.len()) == d.header
        }),
{
    let v = playlist::doc_lines(d, base);
    let k = if d.title is Some { 2int } else { 1 };
    assert(v.subrange(k, k + d.header.len()) =~= d.header);
}

/// A playlist that was saved has the same tracks with the same SoundFonts when
/// it is opened again, and nothing left to save.
pub proof fn lemma_saved_pairs(p: PlaylistView, path: Seq<char>, at: Place)
    requires
        paths::is_plain(at.base),
        doc_ok(p.doc(), at),
        doc_paths_writable(p.doc(), at.base),
    ensures
        ({
            let body = conf::unlines(playlist::doc_lines(p.doc(), at.base));
            let q = playlist::loaded(path, playlist::parsed(body, at));
            pairs(q.items) == pairs(p.items) && q.title == p.title && !q.dirty
        }),
{
    lemma_pairs_round_trip(p.doc(), at);
}

/// Editing a playlist keeps it one that a file can hold: adding an item,
/// removing one, exchanging two, and pinning or unpinning one.
pub proof fn lemma_edits_keep_doc(
    p: PlaylistView,
    item: ItemView,
    font: Option<LocView>,
    a: int,
    b: int,
    at: Place,
)
    requires
        doc_ok(p.doc(), at),
        item_ok(item, at),
        font matches Some(l) ==> is_resolved(l, playlist::sf2_exts(), at.disk),
    ensures
        doc_ok(p.with_item(item).doc(), at),
        0 <= a < p.items.len() ==> doc_ok(
            (PlaylistView { items: p.items.remove(a), ..p }).doc(),
            at,
        ),
        0 <= a < p.items.len() && 0 <= b < p.items.len() ==> doc_ok(
            (PlaylistView { items: favourites::swapped(p.items, a, b), ..p }).doc(),
            at,
        ),
        doc_ok(playlist::with_font(p, a, font).doc(), at),
{
    let s = p.items;
    assert(s == p.doc().items);
    let more = s.push(item);
    assert forall|i: int| 0 <= i < more.len() implies item_ok(#[trigger] more[i], at) by {
        if i < s.len() {
            assert(more[i] == s[i]);
        }
    }
    if 0 <= a < s.len() {
        let less = s.remove(a);
        assert forall|i: int| 0 <= i < less.len() implies item_ok(#[trigger] less[i], at) by {
            assert(less[i] == s[if i < a { i } else { i + 1 }]);
        }
    }
    if 0 <= a < s.len() && 0 <= b < s.len() {
        let turned = favourites::swapped(s, a, b);
        assert forall|i: int| 0 <= i < turned.len() implies item_ok(#[trigger] turned[i], at) by {
            assert(turned[i] == s[if i == a { b } else if i == b { a } else { i }]);
        }
    }
    let pinned = playlist::with_font(p, a, font).items;
    assert forall|i: int| 0 <= i < pinned.len() implies item_ok(#[trigger] pinned[i], at) by {
        assert(item_ok(s[i], at));
    }
}

/// The path of a file whose components are text, hold no line feed and start
/// with no space stays one line.
pub proof fn lemma_clean_path_writable(p: Seq<char>, base: Seq<char>)
    requires
        paths::is_plain(p),
        forall|i: int|
            0 <= i < paths::key(p).segs.len() ==> !(#[trigger] paths::key(p).segs[i]).contains('\n')
                && !paths::key(p).segs[i].contains('\0') && !text::is_space(paths::key(p).segs[i][0]),
    ensures
        writable(LocView::Fs(p), base),
{
    let k = paths::key(p);
    let n = paths::key(base).segs.len() as int;
    match paths::below(k, paths::key(base)) {
        Some(rel) => {
            let w = k.segs.skip(n);
            assert forall|i: int| 0 <= i < w.len() implies !(#[trigger] w[i]).contains('\n')
                && !w[i].contains('\0') by {
                assert(w[i] == k.segs[n + i]);
            }
            lemma_join_has_no(w, '\n');
            lemma_join_has_no(w, '\0');
            raw::lemma_text(rel);
            assert(paths::is_seg(k.segs[n]));
            assert(rel[0] == w[0][0]);
            lemma_guarded_no_feed(rel);
        },
        None => {
            let s = paths::join_segs(k.segs);
            assert(p =~= seq!['/'] + s);
            lemma_join_has_no(k.segs, '\n');
            lemma_join_has_no(k.segs, '\0');
            if p.contains('\n') {
                let i = choose|i: int| 0 <= i < p.len() && p[i] == '\n';
                assert(s[i - 1] == '\n');
            }
            if p.contains('\0') {
                let i = choose|i: int| 0 <= i < p.len() && p[i] == '\0';
                assert(s[i - 1] == '\0');
            }
            raw::lemma_text(p);
            lemma_guarded_no_feed(p);
        },
    }
}

proof fn lemma_join_has_no(v: Seq<Seq<char>>, c: char)
    requires
        c != '/',
        forall|i: int| 0 <= i < v.len() ==> !(#[trigger] v[i]).contains(c),
    ensures
        !paths::join_segs(v).contains(c),
    decreases v.len(),
{
    if v.len() == 1 {
        assert(!v[0].contains(c));
    } else if v.len() > 1 {
        let u = v.drop_first();
        assert forall|i: int| 0 <= i < u.len() implies !(#[trigger] u[i]).contains(c) by {
            assert(u[i] == v[i + 1]);
        }
        lemma_join_has_no(u, c);
        let s = paths::join_segs(v);
        let n = v[0].len() as int;
        if s.contains(c) {
            let i = choose|i: int| 0 <= i < s.len() && s[i] == c;
            if i < n {
                assert(v[0][i] == c);
                assert(v[0].contains(c));
            } else {
                assert(i > n);
                assert(paths::join_segs(u)[i - n - 1] == c);
            }
        }
    }
}

proof fn lemma_guarded_no_feed(s: Seq<char>)
    requires
        !s.contains('\n'),
        s.len() > 0 ==> !text::is_space(s[0]),
    ensures
        ({
            let t = playlist::guarded(s);
            !t.contains('\n') && (t.len() > 0 ==> !text::is_space(t[0]))
        }),
{
    let t = playlist::guarded(s);
    if t.contains('\n') {
        let i = choose|i: int| 0 <= i < t.len() && t[i] == '\n';
        if t != s {
            assert(s[i - 2] == '\n');
        }
    }
}

// --- playlists read from a file ---------------------------------------------

/// A playlist that was read from any text comes back the same when it is saved
/// and read again.
pub proof fn lemma_playlist_round_trip(s: Seq<char>, at: Place)
    requires
        paths::is_plain(at.base),
        doc_writable(playlist::parsed(s, at), at.base),
    ensures
        ({
            let d = playlist::parsed(s, at);
            let e = playlist::parsed(conf::unlines(playlist::doc_lines(d, at.base)), at);
            e.title == d.title && e.header == d.header && e.items == d.items && e.trailer
                == d.trailer
        }),
{
    lemma_parsed_ok(s, at);
    lemma_doc_round_trip(playlist::parsed(s, at), at);
}

/// A playlist that was saved is the same list when it is opened again, with
/// nothing left to save.
pub proof fn lemma_saved_then_opened(p: PlaylistView, path: Seq<char>, at: Place)
    requires
        paths::is_plain(at.base),
        doc_ok(p.doc(), at),
        doc_writable(p.doc(), at.base),
    ensures
        ({
            let body = conf::unlines(playlist::doc_lines(p.doc(), at.base));
            let q = playlist::loaded(path, playlist::parsed(body, at));
            &&& q.items == p.items
            &&& q.title == p.title
            &&& q.header == p.header
            &&& q.trailer == p.trailer
            &&& q.path == Some(path)
            &&& !q.dirty
        }),
{
    lemma_doc_round_trip(p.doc(), at);
}

/// The directory of a playlist whose path was made absolute is plain, so the
/// laws above hold of it.
pub proof fn lemma_base_is_plain(path: Seq<char>, cwd: Seq<char>)
    requires
        path.len() > 0,
        paths::is_absolute(cwd),
    ensures
        paths::is_plain(vfs::dir_of(host::absolute_text(path, Some(cwd)))),
{
    host::lemma_absolute(path, cwd);
    let p = host::absolute_text(path, Some(cwd));
    paths::lemma_plain_parent(p);
    if paths::parent(p) is None {
        let r = seq!['/'];
        let k = PathKey { root: true, segs: seq![] };
        paths::lemma_key_of_render(k);
        assert(paths::render(k) =~= r);
    }
}

// --- nothing is lost --------------------------------------------------------

/// True for a line that is read, but neither played nor a title: a comment,
/// another player's tag, a track that is not a MIDI file, a font directive
/// without a SoundFont.
pub open spec fn is_other(l: Seq<char>) -> bool {
    &&& l.len() > 0
    &&& l != "#EXTM3U"@
    &&& !text::starts_with(l, playlist::title_directive())
    &&& !playlist::is_pin(l)
    &&& playlist::is_directive(l) || l[0] == '#' || !playlist::has_ext(l, playlist::midi_exts())
}

spec fn in_items(items: Seq<ItemView>, l: Seq<char>) -> bool {
    exists|i: int| 0 <= i < items.len() && (#[trigger] items[i]).extra.contains(l)
}

/// True when a reading has kept a line.
spec fn holds(r: Reading, l: Seq<char>) -> bool {
    r.header.contains(l) || r.pending.contains(l) || in_items(r.items, l)
}

proof fn lemma_has_push(v: Seq<Seq<char>>, x: Seq<char>, l: Seq<char>)
    ensures
        v.push(x).contains(x),
        v.contains(l) ==> v.push(x).contains(l),
{
    let p = v.push(x);
    assert(p[v.len() as int] == x);
    if v.contains(l) {
        let i = choose|i: int| 0 <= i < v.len() && v[i] == l;
        assert(p[i] == l);
    }
}

proof fn lemma_has_append(a: Seq<Seq<char>>, b: Seq<Seq<char>>, l: Seq<char>)
    ensures
        a.contains(l) ==> (a + b).contains(l),
        b.contains(l) ==> (a + b).contains(l),
{
    if a.contains(l) {
        let i = choose|i: int| 0 <= i < a.len() && a[i] == l;
        assert((a + b)[i] == l);
    }
    if b.contains(l) {
        let i = choose|i: int| 0 <= i < b.len() && b[i] == l;
        assert((a + b)[a.len() + i] == l);
    }
}

proof fn lemma_drop_font_holds(r: Reading, l: Seq<char>)
    ensures
        holds(r, l) ==> holds(r.drop_font(), l),
        (r.font matches Some((_, line)) && line == l) ==> holds(r.drop_font(), l),
{
    match r.font {
        Some((_, line)) => {
            lemma_has_push(r.pending, line, l);
        },
        None => {},
    }
}

/// A further line loses none that was kept, and is kept itself if it is not
/// acted on.
proof fn lemma_step_holds(r: Reading, line: Seq<char>, at: Place, l: Seq<char>)
    ensures
        holds(r, l) ==> holds(r.step(line, at), l),
        is_other(line) ==> holds(r.step(line, at), line),
{
    lemma_directives();
    lemma_drop_font_holds(r, l);
    lemma_has_append(r.header, r.pending, l);
    lemma_has_push(r.pending, line, l);
    let q = r.drop_font();
    lemma_has_push(q.pending, line, l);
    let next = r.step(line, at);
    if next.items.len() == r.items.len() + 1 {
        let n = r.items.len() as int;
        assert(next.items[n].extra == r.pending);
        if in_items(r.items, l) {
            let i = choose|i: int| 0 <= i < r.items.len() && (#[trigger] r.items[i]).extra.contains(l);
            assert(next.items[i].extra.contains(l));
        }
        if r.pending.contains(l) {
            assert(next.items[n].extra.contains(l));
        }
    }
}

proof fn lemma_reading_holds(lines: Seq<Seq<char>>, at: Place, i: int)
    requires
        0 <= i < lines.len(),
        is_other(text::trim(lines[i])),
    ensures
        holds(playlist::reading(lines, at), text::trim(lines[i])),
    decreases lines.len(),
{
    let l = text::trim(lines[i]);
    let front = lines.drop_last();
    lemma_step_holds(playlist::reading(front, at), text::trim(lines.last()), at, l);
    if i < lines.len() - 1 {
        assert(front[i] == lines[i]);
        lemma_reading_holds(front, at, i);
    }
}

/// A kept line is written where it is or at the end.
proof fn lemma_tame_holds(v: Seq<Seq<char>>, l: Seq<char>)
    requires
        v.contains(l),
    ensures
        playlist::tame(v).contains(l) || playlist::stray(v).contains(l),
    decreases v.len(),
{
    let u = v.drop_last();
    let i = choose|i: int| 0 <= i < v.len() && v[i] == l;
    lemma_has_push(playlist::tame(u), v.last(), l);
    lemma_has_push(playlist::stray(u), v.last(), l);
    if i < u.len() {
        assert(u[i] == l);
        lemma_tame_holds(u, l);
    }
}

/// The lines of the items, with those written at the end, hold the lines kept
/// with them.
proof fn lemma_items_lines_hold(s: Seq<ItemView>, n: int, base: Seq<char>, i: int, l: Seq<char>)
    requires
        0 <= i < n <= s.len(),
        s[i].extra.contains(l),
    ensures
        playlist::items_lines(s, n, base).contains(l) || playlist::items_stray(s, n).contains(l),
    decreases n,
{
    let front = playlist::items_lines(s, n - 1, base);
    let own = playlist::item_lines(s[n - 1], base);
    let late = playlist::items_stray(s, n - 1);
    let more = if s[n - 1].soundfont is Some {
        seq![]
    } else {
        playlist::stray(s[n - 1].extra)
    };
    lemma_has_append(front, own, l);
    lemma_has_append(late, more, l);
    if i == n - 1 {
        let e = playlist::notes(s[i]);
        let pin = match s[i].soundfont {
            Some(sf) => seq![playlist::sf_directive() + playlist::path_text(sf, base)],
            None => seq![],
        };
        lemma_tame_holds(s[i].extra, l);
        lemma_has_append(e, pin, l);
        lemma_has_append(e + pin, seq![playlist::path_text(s[i].midi, base)], l);
    } else {
        lemma_items_lines_hold(s, n - 1, base, i, l);
    }
}

/// Every line that a playlist keeps, at the top, with an item or after the last
/// one, is a line of the file it is saved to.
pub proof fn lemma_kept_lines_written(d: DocView, base: Seq<char>, l: Seq<char>)
    requires
        d.header.contains(l) || d.trailer.contains(l) || exists|i: int|
            0 <= i < d.items.len() && (#[trigger] d.items[i]).extra.contains(l),
    ensures
        playlist::doc_lines(d, base).contains(l),
{
    let n = d.items.len() as int;
    let top = playlist::top_lines(d.title, playlist::top_notes(d.header, d.items));
    let mid = playlist::items_lines(d.items, n, base);
    let head = playlist::top_stray(d.header, d.items);
    let tail = playlist::items_stray(d.items, n);
    lemma_has_append(top, mid, l);
    lemma_has_append(top + mid, d.trailer, l);
    lemma_has_append(top + mid + d.trailer, head, l);
    lemma_has_append(top + mid + d.trailer + head, tail, l);
    if d.header.contains(l) {
        let kept = playlist::top_notes(d.header, d.items);
        let t = title_lines(d.title);
        let blank = if kept.len() > 0 {
            seq![Seq::<char>::empty()]
        } else {
            seq![]
        };
        lemma_tame_holds(d.header, l);
        lemma_has_append(t, kept, l);
        lemma_has_append(t + kept, blank, l);
        assert(top =~= t + kept + blank);
    } else if !d.trailer.contains(l) {
        let j = choose|j: int| 0 <= j < d.items.len() && (#[trigger] d.items[j]).extra.contains(l);
        lemma_items_lines_hold(d.items, n, base, j, l);
    }
}

/// Comments, foreign tags and lines that were not acted on are all written back:
/// every such line of a playlist is a line of the file it is saved to.
pub proof fn lemma_other_lines_kept(s: Seq<char>, at: Place, i: int)
    requires
        0 <= i < text::lines(playlist::without_bom(s)).len(),
        is_other(text::trim(text::lines(playlist::without_bom(s))[i])),
    ensures
        playlist::doc_lines(playlist::parsed(s, at), at.base).contains(
            text::trim(text::lines(playlist::without_bom(s))[i]),
        ),
{
    let lines = text::lines(playlist::without_bom(s));
    let l = text::trim(lines[i]);
    lemma_reading_holds(lines, at, i);
    lemma_drop_font_holds(playlist::reading(lines, at), l);
    lemma_kept_lines_written(playlist::parsed(s, at), at.base, l);
}

/// A font directive is for the next item only: once an item has taken it, no
/// item after it is pinned before another directive comes.
pub proof fn lemma_pin_is_for_one_item(
    v: Seq<Seq<char>>,
    item: Seq<char>,
    after: Seq<Seq<char>>,
    at: Place,
)
    requires
        playlist::reading(v.push(item), at).items.len() > playlist::reading(v, at).items.len(),
        forall|i: int| 0 <= i < after.len() ==> !playlist::is_directive(text::trim(#[trigger] after[i])),
    ensures
        ({
            let before = playlist::reading(v, at);
            let taken = playlist::reading(v.push(item), at);
            let r = playlist::reading(v.push(item) + after, at);
            &&& taken.items.last().soundfont == match before.font {
                Some((f, _)) => Some(f),
                None => None,
            }
            &&& r.font is None
            &&& taken.items.len() <= r.items.len()
            &&& forall|i: int|
                taken.items.len() <= i < r.items.len() ==> (#[trigger] r.items[i]).soundfont is None
        }),
    decreases after.len(),
{
    lemma_directives();
    let taken = playlist::reading(v.push(item), at);
    assert(v.push(item).drop_last() =~= v);
    assert(v.push(item).last() == item);
    if after.len() == 0 {
        assert(v.push(item) + after =~= v.push(item));
    } else {
        let front = after.drop_last();
        assert forall|i: int| 0 <= i < front.len() implies !playlist::is_directive(
            text::trim(#[trigger] front[i]),
        ) by {
            assert(front[i] == after[i]);
        }
        lemma_pin_is_for_one_item(v, item, front, at);
        let all = v.push(item) + after;
        assert(all.drop_last() =~= v.push(item) + front);
        assert(all.last() == after.last());
        assert(!playlist::is_directive(text::trim(after[after.len() - 1])));
    }
}

} // verus!
