//! What holds of the panels.

use crate::browser;
use crate::browser::{BrowserView, EntryView};
use crate::paths;
use crate::sorting;
use crate::text;
use crate::vfs;
use crate::vfs::{ChildView, LocKey, LocView};
use vstd::prelude::*;

verus! {

// --- what is listed ---------------------------------------------------------

/// Rows by name hold the same rows, and no row has a lower-cased name before
/// that of a row above it.
pub proof fn lemma_by_name(s: Seq<EntryView>)
    ensures
        browser::by_name(s).len() == s.len(),
        forall|e: EntryView| #[trigger] browser::by_name(s).contains(e) == s.contains(e),
        forall|i: int, j: int|
            0 <= i < j < s.len() ==> !sorting::key_less(
                sorting::text_key(text::lower((#[trigger] browser::by_name(s)[j]).name)),
                sorting::text_key(text::lower((#[trigger] browser::by_name(s)[i]).name)),
            ),
{
    let keys = browser::name_keys(s);
    let p = sorting::order(keys);
    sorting::lemma_reorder(s, keys);
    sorting::lemma_order_exists(keys);
    let t = browser::by_name(s);
    assert forall|i: int, j: int| 0 <= i < j < s.len() implies !sorting::key_less(
        sorting::text_key(text::lower((#[trigger] t[j]).name)),
        sorting::text_key(text::lower((#[trigger] t[i]).name)),
    ) by {
        assert(sorting::before(keys, p[i], p[j]));
        sorting::lemma_before(keys, p[i], p[j], p[i]);
        assert(keys[p[i]] == sorting::text_key(text::lower(t[i].name)));
        assert(keys[p[j]] == sorting::text_key(text::lower(t[j].name)));
        if sorting::key_less(keys[p[j]], keys[p[i]]) {
            assert(sorting::before(keys, p[j], p[i]));
        }
    }
}

/// A panel lists exactly the children it is for: a row below the parent entry
/// is the row of a child that is a directory, or a file with one of the panel's
/// extensions, and not hidden; and every such child has a row.
pub proof fn lemma_listing(b: BrowserView, children: Seq<ChildView>, e: EntryView)
    requires
        !e.is_parent,
    ensures
        b.listing(children).contains(e) <==> exists|c: ChildView|
            children.contains(c) && (b.lists_dir(c) || b.lists_file(c)) && e
                == #[trigger] browser::row_of(c, b.compute_duration),
{
    let fd = |c: ChildView| b.lists_dir(c);
    let ff = |c: ChildView| b.lists_file(c);
    let d = browser::rows_of(children.filter(fd), b.compute_duration);
    let f = browser::rows_of(children.filter(ff), b.compute_duration);
    let l = b.listing(children);
    let p = b.parent_row();
    lemma_by_name(d);
    lemma_by_name(f);
    lemma_picked(children, fd, b.compute_duration, e);
    lemma_picked(children, ff, b.compute_duration, e);
    let nd = browser::by_name(d);
    let nf = browser::by_name(f);
    assert(l == p + nd + nf);
    if l.contains(e) {
        let i = choose|i: int| 0 <= i < l.len() && l[i] == e;
        if i < p.len() {
            assert(p[i].is_parent);
        } else if i < p.len() + nd.len() {
            assert(nd[i - p.len()] == e);
            assert(nd.contains(e));
        } else {
            assert(nf[i - p.len() - nd.len()] == e);
            assert(nf.contains(e));
        }
    }
    if nd.contains(e) {
        let i = choose|i: int| 0 <= i < nd.len() && nd[i] == e;
        assert(l[p.len() + i] == e);
    }
    if nf.contains(e) {
        let i = choose|i: int| 0 <= i < nf.len() && nf[i] == e;
        assert(l[p.len() + nd.len() + i] == e);
    }
}

/// The rows of the children that were picked.
pub proof fn lemma_picked(
    children: Seq<ChildView>,
    pred: spec_fn(ChildView) -> bool,
    dur: bool,
    e: EntryView,
)
    ensures
        browser::rows_of(children.filter(pred), dur).contains(e) <==> exists|c: ChildView|
            children.contains(c) && pred(c) && e == #[trigger] browser::row_of(c, dur),
{
    let s = children.filter(pred);
    let r = browser::rows_of(s, dur);
    lemma_filter_members(children, pred);
    if r.contains(e) {
        let i = choose|i: int| 0 <= i < r.len() && r[i] == e;
        let c = s[i];
        assert(s.contains(c));
        assert(e == browser::row_of(c, dur));
    }
    if exists|c: ChildView|
        children.contains(c) && pred(c) && e == #[trigger] browser::row_of(c, dur) {
        let c = choose|c: ChildView|
            children.contains(c) && pred(c) && e == #[trigger] browser::row_of(c, dur);
        assert(s.contains(c));
        let i = choose|i: int| 0 <= i < s.len() && s[i] == c;
        assert(r[i] == e);
    }
}

/// A filtered sequence has exactly the members that pass.
pub proof fn lemma_filter_members<T>(s: Seq<T>, pred: spec_fn(T) -> bool)
    ensures
        forall|x: T| #[trigger] s.filter(pred).contains(x) == (s.contains(x) && pred(x)),
    decreases s.len(),
{
    reveal(Seq::filter);
    let f = s.filter(pred);
    if s.len() > 0 {
        let t = s.drop_last();
        lemma_filter_members(t, pred);
        let g = t.filter(pred);
        assert forall|x: T| #[trigger] f.contains(x) == (s.contains(x) && pred(x)) by {
            assert(g.contains(x) == (t.contains(x) && pred(x)));
            if f.contains(x) {
                let i = choose|i: int| 0 <= i < f.len() && f[i] == x;
                if i < g.len() {
                    assert(g[i] == x);
                    let k = choose|k: int| 0 <= k < t.len() && t[k] == x;
                    assert(s[k] == x);
                } else {
                    assert(s[s.len() - 1] == x);
                }
            }
            if s.contains(x) && pred(x) {
                let k = choose|k: int| 0 <= k < s.len() && s[k] == x;
                if k < t.len() {
                    assert(t[k] == x);
                    let i = choose|i: int| 0 <= i < g.len() && g[i] == x;
                    assert(f[i] == x);
                } else {
                    assert(f[f.len() - 1] == x);
                }
            }
        }
    }
}

// --- the filter -------------------------------------------------------------

/// A filter narrows the list: what it shows is in the full listing and holds
/// the text looked for, whatever the letter case, and nothing of that kind is
/// left out.
pub proof fn lemma_filter_narrows(b: BrowserView, q: Seq<char>, e: EntryView)
    requires
        text::lower(q).len() > 0,
    ensures
        ({
            let f = (BrowserView { filter: text::lower(q), ..b }).refiltered();
            &&& f.all == b.all
            &&& f.entries.contains(e) <==> (b.all.contains(e) && text::has(
                text::lower(e.name),
                text::lower(q),
            ))
        }),
{
    let g = BrowserView { filter: text::lower(q), ..b };
    let pred = |x: EntryView| text::has(text::lower(x.name), g.filter);
    lemma_filter_members(b.all, pred);
    assert(g.matching() == b.all.filter(pred));
}

/// Clearing the filter shows the full listing again.
pub proof fn lemma_filter_cleared(b: BrowserView)
    ensures
        (BrowserView { filter: text::lower(seq![]), ..b }).refiltered().entries == b.all,
{
    text::lemma_lower_empty();
}

/// A change of the filter or of the listing keeps the cursor on the same item
/// when it is still shown, and otherwise puts it on the first row, if any.
pub proof fn lemma_cursor_kept(b: BrowserView)
    requires
        b.all.len() <= usize::MAX,
    ensures
        ({
            let f = b.refiltered();
            &&& f.entries.len() == 0 ==> f.at is None
            &&& f.entries.len() > 0 ==> f.selected() is Some
            &&& b.selected() matches Some(e) ==> (exists|i: int|
                0 <= i < f.entries.len() && (#[trigger] f.entries[i]).loc.key() == e.loc.key())
                ==> (f.selected() matches Some(x) && x.loc.key() == e.loc.key())
            &&& b.selected() is None && f.entries.len() > 0 ==> f.at == Some(0usize)
        }),
{
    let f = b.refiltered();
    b.all.lemma_filter_len(|e: EntryView| text::has(text::lower(e.name), b.filter));
    match b.selected() {
        Some(e) => {
            browser::lemma_find_loc(f.entries, e.loc.key());
        },
        None => {},
    }
}

/// Going anywhere drops the filter.
pub proof fn lemma_moving_drops_filter(b: BrowserView, loc: LocView, children: Seq<ChildView>)
    ensures
        ({
            let m = b.moved_to(loc, children);
            m.dir == loc && m.filter.len() == 0 && m.entries == m.all
        }),
{
}

// --- getting around ---------------------------------------------------------

/// True when a row below the parent entry is at `k`.
pub open spec fn lists(s: Seq<EntryView>, k: LocKey) -> bool {
    exists|i: int| 0 <= i < s.len() && !(#[trigger] s[i]).is_parent && s[i].loc.key() == k
}

proof fn lemma_on_item(b: BrowserView, k: LocKey)
    requires
        lists(b.entries, k),
        b.entries.len() <= usize::MAX,
    ensures
        b.on_item(k).selected() matches Some(e) && e.loc.key() == k && !e.is_parent,
{
    browser::lemma_find_item(b.entries, k);
    let i = choose|i: int|
        0 <= i < b.entries.len() && !(#[trigger] b.entries[i]).is_parent && b.entries[i].loc.key()
            == k;
    if browser::find_item(b.entries, k) >= b.entries.len() {
        assert(b.entries[i].is_parent || b.entries[i].loc.key() != k);
    }
}

/// Going up a directory lands on the one that was left.
pub proof fn lemma_up_lands_on_the_one_left(b: BrowserView, children: Seq<ChildView>)
    requires
        b.dir.parent() is Some,
        b.above(children).entries.len() <= usize::MAX,
        lists(b.above(children).entries, b.dir.key()),
    ensures
        b.above(children).dir == b.dir.parent()->0,
        b.above(children).selected() matches Some(e) && e.loc.key() == b.dir.key()
            && !e.is_parent,
{
    let m = b.moved_to(b.dir.parent()->0, children);
    assert(b.above(children).entries == m.entries);
    lemma_on_item(m, b.dir.key());
}

/// Entering a directory and going up again comes back to it: the panel is where
/// the directory is, with the cursor on it.
pub proof fn lemma_enter_and_up(
    b: BrowserView,
    inside: Seq<ChildView>,
    outside: Seq<ChildView>,
)
    requires
        b.selected() matches Some(e) && e.is_dir && !e.is_parent && e.loc.parent() is Some && lists(
            b.entered(inside).above(outside).entries,
            e.loc.key(),
        ),
        b.entered(inside).above(outside).entries.len() <= usize::MAX,
    ensures
        b.entered(inside).dir == (b.selected()->0).loc,
        b.entered(inside).above(outside).dir == (b.selected()->0).loc.parent()->0,
        b.entered(inside).above(outside).selected() matches Some(x) && x.loc.key() == (
        b.selected()->0).loc.key(),
{
    lemma_up_lands_on_the_one_left(b.entered(inside), outside);
}

/// Revealing a location that its directory lists puts the cursor on it.
pub proof fn lemma_reveal(b: BrowserView, loc: LocView, children: Seq<ChildView>)
    requires
        loc.parent() is Some,
        b.revealed(loc, children).entries.len() <= usize::MAX,
        lists(b.revealed(loc, children).entries, loc.key()),
    ensures
        b.revealed(loc, children).dir.key() == (loc.parent()->0).key(),
        b.revealed(loc, children).selected() matches Some(e) && e.loc.key() == loc.key(),
{
    let p = loc.parent()->0;
    let m = if b.dir.key() != p.key() {
        b.moved_to(p, children)
    } else {
        b
    };
    assert(b.revealed(loc, children).entries == m.entries);
    lemma_on_item(m, loc.key());
}

// --- walking the files ------------------------------------------------------

/// From a file, the next one leads back to it, and the last has no next one.
pub proof fn lemma_neighbours(files: Seq<EntryView>, i: int)
    requires
        0 <= i < files.len(),
        forall|a: int, b: int|
            0 <= a < b < files.len() ==> (#[trigger] files[a]).loc.key() != (
            #[trigger] files[b]).loc.key(),
        forall|a: int| 0 <= a < files.len() ==> (#[trigger] files[a]).loc.parent() is Some,
    ensures
        browser::neighbour(files, files[i].loc, true) == if i + 1 < files.len() {
            Some(files[i + 1].loc)
        } else {
            None
        },
        browser::neighbour(files, files[i].loc, false) == if i > 0 {
            Some(files[i - 1].loc)
        } else {
            None
        },
        i + 1 < files.len() ==> browser::neighbour(files, files[i + 1].loc, false) == Some(
            files[i].loc,
        ),
{
    lemma_found(files, i);
    if i + 1 < files.len() {
        lemma_found(files, i + 1);
    }
}

proof fn lemma_found(files: Seq<EntryView>, i: int)
    requires
        0 <= i < files.len(),
        forall|a: int, b: int|
            0 <= a < b < files.len() ==> (#[trigger] files[a]).loc.key() != (
            #[trigger] files[b]).loc.key(),
    ensures
        browser::find_loc(files, files[i].loc.key()) == i,
{
    let k = files[i].loc.key();
    browser::lemma_find_loc(files, k);
    let f = browser::find_loc(files, k);
    if f < i {
        assert(files[f].loc.key() != files[i].loc.key());
    } else if f > i {
        assert(files[i].loc.key() != k);
    }
}

/// True for the children of one directory: each has a name of its own, whatever
/// the letter case, and is located there under it.
pub open spec fn are_children(v: Seq<ChildView>, dir: LocView) -> bool {
    &&& forall|i: int|
        0 <= i < v.len() ==> paths::is_name((#[trigger] v[i]).loc.raw_name()) && v[i].is_in(dir)
    &&& forall|i: int, j: int|
        0 <= i < j < v.len() ==> text::lower((#[trigger] v[i]).name) != text::lower(
            (#[trigger] v[j]).name,
        )
}

/// True when a name comes before another, whatever the letter case.
pub open spec fn name_less(a: Seq<char>, b: Seq<char>) -> bool {
    sorting::key_less(sorting::text_key(text::lower(a)), sorting::text_key(text::lower(b)))
}

proof fn lemma_text_key_injective(a: Seq<char>, b: Seq<char>)
    requires
        sorting::text_key(a) == sorting::text_key(b),
    ensures
        a == b,
{
    assert(a.len() == sorting::text_key(a).len());
    assert(b.len() == sorting::text_key(b).len());
    assert forall|i: int| 0 <= i < a.len() implies a[i] == b[i] by {
        assert(sorting::text_key(a)[i] == a[i] as int);
        assert(sorting::text_key(b)[i] == b[i] as int);
    }
    assert(a =~= b);
}

/// Picked children still have names of their own.
proof fn lemma_filter_distinct(v: Seq<ChildView>, pred: spec_fn(ChildView) -> bool)
    requires
        forall|i: int, j: int|
            0 <= i < j < v.len() ==> text::lower((#[trigger] v[i]).name) != text::lower(
                (#[trigger] v[j]).name,
            ),
    ensures
        forall|i: int, j: int|
            0 <= i < j < v.filter(pred).len() ==> text::lower((#[trigger] v.filter(pred)[i]).name)
                != text::lower((#[trigger] v.filter(pred)[j]).name),
    decreases v.len(),
{
    reveal(Seq::filter);
    if v.len() > 0 {
        let t = v.drop_last();
        assert forall|i: int, j: int| 0 <= i < j < t.len() implies text::lower((#[trigger] t[i]).name)
            != text::lower((#[trigger] t[j]).name) by {
            assert(text::lower(v[i].name) != text::lower(v[j].name));
        }
        lemma_filter_distinct(t, pred);
        lemma_filter_members(t, pred);
        let g = t.filter(pred);
        let f = v.filter(pred);
        assert forall|i: int, j: int| 0 <= i < j < f.len() implies text::lower((#[trigger] f[i]).name)
            != text::lower((#[trigger] f[j]).name) by {
            if j < g.len() {
                assert(f[i] == g[i] && f[j] == g[j]);
            } else {
                assert(g.contains(g[i]));
                let k = choose|k: int| 0 <= k < t.len() && t[k] == g[i];
                assert(v[k] == f[i]);
                assert(v[v.len() - 1] == f[j]);
            }
        }
    }
}

/// True for the row of a child that can be played.
pub open spec fn is_playable_row(b: BrowserView, children: Seq<ChildView>, e: EntryView) -> bool {
    exists|c: ChildView|
        children.contains(c) && b.lists_playable(c) && e == #[trigger] browser::row_of(
            c,
            b.compute_duration,
        )
}

/// The files of a directory that can be played: they are children of it, each
/// once, in the order of their names.
pub proof fn lemma_playable(b: BrowserView, children: Seq<ChildView>, dir: LocView)
    requires
        are_children(children, dir),
    ensures
        ({
            let files = b.playable(children);
            &&& forall|i: int|
                0 <= i < files.len() ==> is_playable_row(b, children, #[trigger] files[i])
            &&& forall|c: ChildView|
                #[trigger]
                children.contains(c) && b.lists_playable(c) ==> files.contains(
                    browser::row_of(c, b.compute_duration),
                )
            &&& forall|i: int|
                0 <= i < files.len() ==> vfs::opt_key((#[trigger] files[i]).loc.parent()) == Some(
                    dir.key(),
                ) && files[i].loc.file_name() == files[i].name && paths::is_name(
                    files[i].loc.raw_name(),
                )
            &&& forall|i: int, j: int|
                0 <= i < j < files.len() ==> name_less(
                    (#[trigger] files[i]).name,
                    (#[trigger] files[j]).name,
                )
            &&& forall|i: int, j: int|
                0 <= i < j < files.len() ==> (#[trigger] files[i]).loc.key() != (
                #[trigger] files[j]).loc.key()
        }),
{
    let pred = |c: ChildView| b.lists_playable(c);
    let s = children.filter(pred);
    let rows = browser::rows_of(s, b.compute_duration);
    let files = b.playable(children);
    let keys = browser::name_keys(rows);
    let p = sorting::order(keys);
    lemma_by_name(rows);
    lemma_filter_members(children, pred);
    lemma_filter_distinct(children, pred);
    sorting::lemma_reorder(rows, keys);
    sorting::lemma_order_exists(keys);
    assert forall|i: int| 0 <= i < files.len() implies is_playable_row(
        b,
        children,
        #[trigger] files[i],
    ) by {
        assert(files.contains(files[i]));
        lemma_picked(children, pred, b.compute_duration, files[i]);
        let c = choose|c: ChildView|
            children.contains(c) && pred(c) && files[i] == #[trigger] browser::row_of(
                c,
                b.compute_duration,
            );
        assert(b.lists_playable(c));
    }
    assert forall|c: ChildView|
        #[trigger]
        children.contains(c) && b.lists_playable(c) implies files.contains(
        browser::row_of(c, b.compute_duration),
    ) by {
        assert(pred(c));
        lemma_picked(children, pred, b.compute_duration, browser::row_of(c, b.compute_duration));
    }
    assert forall|i: int| 0 <= i < files.len() implies vfs::opt_key(
        (#[trigger] files[i]).loc.parent(),
    ) == Some(dir.key()) && files[i].loc.file_name() == files[i].name && paths::is_name(
        files[i].loc.raw_name(),
    ) by {
        let c = choose|c: ChildView|
            children.contains(c) && b.lists_playable(c) && files[i] == #[trigger] browser::row_of(
                c,
                b.compute_duration,
            );
        let k = choose|k: int| 0 <= k < children.len() && children[k] == c;
        assert(children[k].is_in(dir));
    }
    assert forall|i: int, j: int| 0 <= i < j < files.len() implies name_less(
        (#[trigger] files[i]).name,
        (#[trigger] files[j]).name,
    ) && files[i].loc.key() != files[j].loc.key() by {
        let x = p[i];
        let y = p[j];
        assert(sorting::before(keys, x, y));
        assert(files[i] == rows[x] && files[j] == rows[y]);
        assert(rows[x].name == s[x].name && rows[y].name == s[y].name);
        assert(keys[x] == sorting::text_key(text::lower(rows[x].name)));
        assert(keys[y] == sorting::text_key(text::lower(rows[y].name)));
        assert(x != y);
        assert(text::lower(s[x].name) != text::lower(s[y].name)) by {
            if x < y {
                assert(text::lower(s[x].name) != text::lower(s[y].name));
            } else {
                assert(text::lower(s[y].name) != text::lower(s[x].name));
            }
        }
        if keys[x] == keys[y] {
            lemma_text_key_injective(text::lower(s[x].name), text::lower(s[y].name));
        }
        if files[i].loc.key() == files[j].loc.key() {
            vfs::lemma_same_name(files[i].loc, files[j].loc);
        }
    }
}

/// A location that names the file at `i` has that file's neighbours.
proof fn lemma_neighbours_of(files: Seq<EntryView>, l: LocView, i: int)
    requires
        0 <= i < files.len(),
        files[i].loc.key() == l.key(),
        files[i].loc.parent() is Some,
        forall|a: int, b: int|
            0 <= a < b < files.len() ==> (#[trigger] files[a]).loc.key() != (
            #[trigger] files[b]).loc.key(),
    ensures
        browser::neighbour(files, l, true) == if i + 1 < files.len() {
            Some(files[i + 1].loc)
        } else {
            None
        },
        browser::neighbour(files, l, false) == if i > 0 {
            Some(files[i - 1].loc)
        } else {
            None
        },
{
    lemma_found(files, i);
    vfs::lemma_same_parent(files[i].loc, l);
}

/// Only a location of one of the files has a neighbour.
proof fn lemma_has_neighbour(files: Seq<EntryView>, l: LocView, forward: bool) -> (i: int)
    requires
        browser::neighbour(files, l, forward) is Some,
    ensures
        0 <= i < files.len(),
        files[i].loc.key() == l.key(),
{
    browser::lemma_find_loc(files, l.key());
    browser::find_loc(files, l.key())
}

/// Names in order are strictly so.
proof fn lemma_name_order(files: Seq<EntryView>, i: int, j: int)
    requires
        0 <= i < files.len(),
        0 <= j < files.len(),
        forall|a: int, b: int|
            0 <= a < b < files.len() ==> name_less(
                (#[trigger] files[a]).name,
                (#[trigger] files[b]).name,
            ),
    ensures
        name_less(files[i].name, files[j].name) <==> i < j,
{
    let x = sorting::text_key(text::lower(files[i].name));
    let y = sorting::text_key(text::lower(files[j].name));
    if name_less(files[i].name, files[j].name) && i >= j {
        sorting::lemma_key_less_irreflexive(x);
        if j < i {
            assert(name_less(files[j].name, files[i].name));
            sorting::lemma_key_less_transitive(x, y, x);
        }
    }
}

/// In a directory, the next file leads back to the one before it and the
/// previous file on to the one after it. Both are in that directory, and no file
/// that can be played has a name between theirs.
pub proof fn lemma_next_and_previous(
    b: BrowserView,
    children: Seq<ChildView>,
    dir: LocView,
    l: LocView,
    n: LocView,
)
    requires
        are_children(children, dir),
    ensures
        ({
            let files = b.playable(children);
            let next = vfs::opt_key(browser::neighbour(files, l, true)) == Some(n.key());
            let previous = vfs::opt_key(browser::neighbour(files, n, false)) == Some(l.key());
            &&& next <==> previous
            &&& next ==> vfs::opt_key(l.parent()) == Some(dir.key()) && vfs::opt_key(n.parent())
                == Some(dir.key()) && name_less(l.file_name(), n.file_name())
            &&& next ==> forall|c: ChildView|
                #[trigger]
                children.contains(c) && b.lists_playable(c) ==> !(name_less(l.file_name(), c.name)
                    && name_less(c.name, n.file_name()))
        }),
{
    let files = b.playable(children);
    lemma_playable(b, children, dir);
    let next = vfs::opt_key(browser::neighbour(files, l, true)) == Some(n.key());
    let previous = vfs::opt_key(browser::neighbour(files, n, false)) == Some(l.key());
    if previous {
        let i = lemma_has_neighbour(files, n, false);
        lemma_neighbours_of(files, n, i);
        lemma_neighbours_of(files, l, i - 1);
    }
    if next {
        let i = lemma_has_neighbour(files, l, true);
        lemma_neighbours_of(files, l, i);
        lemma_neighbours_of(files, n, i + 1);
        vfs::lemma_same_parent(files[i].loc, l);
        vfs::lemma_same_parent(files[i + 1].loc, n);
        vfs::lemma_same_name(files[i].loc, l);
        vfs::lemma_same_name(files[i + 1].loc, n);
        assert forall|c: ChildView|
            #[trigger]
            children.contains(c) && b.lists_playable(c) implies !(name_less(l.file_name(), c.name)
            && name_less(c.name, n.file_name())) by {
            let e = browser::row_of(c, b.compute_duration);
            assert(files.contains(e));
            let k = choose|k: int| 0 <= k < files.len() && files[k] == e;
            lemma_name_order(files, i, k);
            lemma_name_order(files, k, i + 1);
        }
    }
}

/// The last file that can be played has no next one and the first no previous
/// one; every other has both. A location of no such file has neither.
pub proof fn lemma_first_and_last(
    b: BrowserView,
    children: Seq<ChildView>,
    dir: LocView,
    c: ChildView,
    l: LocView,
)
    requires
        are_children(children, dir),
        children.contains(c),
        b.lists_playable(c),
    ensures
        ({
            let files = b.playable(children);
            &&& browser::neighbour(files, c.loc, true) is None <==> forall|x: ChildView|
                #[trigger]
                children.contains(x) && b.lists_playable(x) ==> !name_less(c.name, x.name)
            &&& browser::neighbour(files, c.loc, false) is None <==> forall|x: ChildView|
                #[trigger]
                children.contains(x) && b.lists_playable(x) ==> !name_less(x.name, c.name)
            &&& (forall|x: ChildView| #[trigger]
                children.contains(x) && b.lists_playable(x) ==> x.loc.key() != l.key())
                ==> browser::neighbour(files, l, true) is None && browser::neighbour(
                files,
                l,
                false,
            ) is None
        }),
{
    let files = b.playable(children);
    lemma_playable(b, children, dir);
    let e = browser::row_of(c, b.compute_duration);
    assert(files.contains(e));
    let i = choose|i: int| 0 <= i < files.len() && files[i] == e;
    lemma_neighbours_of(files, c.loc, i);
    assert forall|x: ChildView|
        #[trigger]
        children.contains(x) && b.lists_playable(x) implies (name_less(c.name, x.name) ==> i + 1
        < files.len()) && (name_less(x.name, c.name) ==> i > 0) by {
        let r = browser::row_of(x, b.compute_duration);
        assert(files.contains(r));
        let k = choose|k: int| 0 <= k < files.len() && files[k] == r;
        lemma_name_order(files, i, k);
        lemma_name_order(files, k, i);
    }
    if i + 1 < files.len() {
        let x = choose|x: ChildView|
            children.contains(x) && b.lists_playable(x) && files[i + 1] == #[trigger] browser::row_of(
                x,
                b.compute_duration,
            );
        lemma_name_order(files, i, i + 1);
        assert(children.contains(x));
        assert(name_less(c.name, x.name));
    }
    if i > 0 {
        let x = choose|x: ChildView|
            children.contains(x) && b.lists_playable(x) && files[i - 1] == #[trigger] browser::row_of(
                x,
                b.compute_duration,
            );
        lemma_name_order(files, i - 1, i);
        assert(children.contains(x));
        assert(name_less(x.name, c.name));
    }
    if forall|x: ChildView| #[trigger]
        children.contains(x) && b.lists_playable(x) ==> x.loc.key() != l.key() {
        browser::lemma_find_loc(files, l.key());
        let k = browser::find_loc(files, l.key());
        if k < files.len() {
            let x = choose|x: ChildView|
                children.contains(x) && b.lists_playable(x) && files[k] == #[trigger] browser::row_of(
                    x,
                    b.compute_duration,
                );
            assert(children.contains(x));
        }
    }
}

/// Which files can be played next does not depend on where the panel is, on its
/// filter or on its cursor.
pub proof fn lemma_neighbours_anywhere(a: BrowserView, b: BrowserView, children: Seq<ChildView>)
    requires
        a.exts == b.exts,
        a.show_hidden == b.show_hidden,
        a.compute_duration == b.compute_duration,
    ensures
        a.playable(children) == b.playable(children),
{
    let f = |c: ChildView| a.lists_playable(c);
    let g = |c: ChildView| b.lists_playable(c);
    assert(f =~= g);
}

} // verus!
