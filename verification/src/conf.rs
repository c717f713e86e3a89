//! The line format of the files kept in the configuration directory: `#`
//! comments, `[marks]` that start a record, and `key = value` pairs.

use crate::raw;
use crate::text;
use crate::text::{same_text, split_once, trimmed};
use crate::vfs;
use vstd::prelude::*;
use vstd::string::*;

verus! {

// --- lines ------------------------------------------------------------------

/// The lines, each ended by a line feed.
pub open spec fn unlines(v: Seq<Seq<char>>) -> Seq<char>
    decreases v.len(),
{
    if v.len() == 0 {
        seq![]
    } else {
        unlines(v.drop_last()) + v.last().push('\n')
    }
}

/// True for a text that comes back as it is when written as a line and read.
pub open spec fn is_line(s: Seq<char>) -> bool {
    !s.contains('\n') && (s.len() > 0 ==> s.last() != '\r')
}

/// True when every text of `v` is such a line.
pub open spec fn are_lines(v: Seq<Seq<char>>) -> bool {
    forall|i: int| 0 <= i < v.len() ==> is_line(#[trigger] v[i])
}

/// Writing lines after others is writing them all.
pub proof fn lemma_unlines_append(a: Seq<Seq<char>>, b: Seq<Seq<char>>)
    ensures
        unlines(a + b) == unlines(a) + unlines(b),
    decreases b.len(),
{
    if b.len() == 0 {
        assert(a + b =~= a);
        assert(unlines(a) + unlines(b) =~= unlines(a));
    } else {
        lemma_unlines_append(a, b.drop_last());
        assert((a + b).drop_last() =~= a + b.drop_last());
        assert((a + b).last() == b.last());
        assert(unlines(a + b) =~= unlines(a) + unlines(b));
    }
}

/// A line in front of a text is the first line read.
proof fn lemma_lines_front(x: Seq<char>, rest: Seq<char>)
    requires
        is_line(x),
    ensures
        text::lines(x.push('\n') + rest) == seq![x] + text::lines(rest),
{
    let s = x.push('\n') + rest;
    let n = x.len() as int;
    assert(s[n] == '\n');
    assert forall|i: int| 0 <= i < n implies s[i] != '\n' by {
        assert(s[i] == x[i]);
        assert(x.contains(x[i]));
    }
    text::lemma_find_is(s, '\n', n);
    assert(s.take(n) =~= x);
    assert(s.skip(n + 1) =~= rest);
}

/// Reading written lines gives the lines back.
pub proof fn lemma_lines_unlines(v: Seq<Seq<char>>)
    requires
        are_lines(v),
    ensures
        text::lines(unlines(v)) == v,
    decreases v.len(),
{
    if v.len() == 0 {
        assert(text::lines(unlines(v)) =~= v);
    } else {
        let x = v[0];
        let rest = v.drop_first();
        assert forall|i: int| 0 <= i < rest.len() implies is_line(#[trigger] rest[i]) by {
            assert(rest[i] == v[i + 1]);
        }
        lemma_lines_unlines(rest);
        lemma_unlines_append(seq![x], rest);
        assert(seq![x] + rest =~= v);
        assert(seq![x].drop_last() =~= seq![]);
        assert(unlines(seq![x]) =~= x.push('\n')) by {
            reveal_with_fuel(unlines, 2);
        }
        lemma_lines_front(x, unlines(rest));
    }
}

/// Put a line at the end of a text.
pub fn push_line(s: &mut String, line: &str)
    ensures
        final(s)@ == old(s)@ + line@.push('\n'),
{
    let ghost before = s@;
    s.append(line);
    s.push('\n');
    assert(s@ =~= before + line@.push('\n'));
}

// --- what a line says -------------------------------------------------------

/// What a line of a file says.
#[verifier::ext_equal]
pub enum LineView {
    /// Nothing: it is blank, a comment, or not understood.
    Skip,
    /// That a record starts.
    Mark,
    /// That a key has a value.
    Pair { key: Seq<char>, val: Seq<char> },
}

/// What the line `line` says in a file whose records start with `mark`.
pub open spec fn line_view(line: Seq<char>, mark: Seq<char>) -> LineView {
    let t = text::trim(line);
    if t.len() == 0 || t[0] == '#' {
        LineView::Skip
    } else if t == mark {
        LineView::Mark
    } else {
        match text::split_at_first(t, '=') {
            Some((k, v)) => LineView::Pair { key: text::trim(k), val: text::trim(v) },
            None => LineView::Skip,
        }
    }
}

/// What a line of a file says, with its texts.
pub enum ConfLine {
    Skip,
    Mark,
    Pair { key: String, val: String },
}

impl View for ConfLine {
    type V = LineView;

    open spec fn view(&self) -> LineView {
        match self {
            ConfLine::Skip => LineView::Skip,
            ConfLine::Mark => LineView::Mark,
            ConfLine::Pair { key, val } => LineView::Pair { key: key@, val: val@ },
        }
    }
}

pub fn read_line(line: &str, mark: &str) -> (r: ConfLine)
    ensures
        r@ == line_view(line@, mark@),
{
    let t = trimmed(line);
    if t.as_str().unicode_len() == 0 || t.as_str().get_char(0) == '#' {
        return ConfLine::Skip;
    }
    if same_text(t.as_str(), mark) {
        return ConfLine::Mark;
    }
    match split_once(t.as_str(), '=') {
        Some((k, v)) => ConfLine::Pair { key: trimmed(k.as_str()), val: trimmed(v.as_str()) },
        None => ConfLine::Skip,
    }
}

/// A `key = value` line.
pub open spec fn pair_line(key: Seq<char>, val: Seq<char>) -> Seq<char> {
    key + seq![' ', '=', ' '] + val
}

/// The text of a `key = value` line.
pub fn pair_text(key: &str, val: &str) -> (r: String)
    ensures
        r@ == pair_line(key@, val@),
{
    let mut r = key.to_owned();
    r.push(' ');
    r.push('=');
    r.push(' ');
    r.append(val);
    assert(r@ =~= pair_line(key@, val@));
    r
}

/// True for a key that can be written: some characters that are no part of the
/// format, without space around them.
pub open spec fn is_key(k: Seq<char>) -> bool {
    &&& k.len() > 0
    &&& !k.contains('=')
    &&& !k.contains('\n')
    &&& k[0] != '#'
    &&& !text::is_space(k[0])
    &&& !text::is_space(k.last())
}

proof fn lemma_trim_end_append(a: Seq<char>, b: Seq<char>)
    ensures
        text::trim_end(a + b) == if text::trim_end(b).len() > 0 {
            a + text::trim_end(b)
        } else {
            text::trim_end(a)
        },
    decreases b.len(),
{
    let s = a + b;
    if b.len() == 0 {
        assert(s =~= a);
    } else {
        assert(s.last() == b.last());
        if text::is_space(b.last()) {
            assert(s.drop_last() =~= a + b.drop_last());
            lemma_trim_end_append(a, b.drop_last());
        }
    }
}

/// Reading a written pair gives the key and the value back, the value without
/// space at its end.
pub proof fn lemma_read_pair(key: Seq<char>, val: Seq<char>, mark: Seq<char>)
    requires
        is_key(key),
        val.len() > 0 ==> !text::is_space(val[0]),
        !mark.contains('='),
    ensures
        line_view(pair_line(key, val), mark) == (LineView::Pair { key, val: text::trim_end(val) }),
{
    let sep = seq![' ', '=', ' '];
    let s = pair_line(key, val);
    let v = text::trim_end(val);
    assert(s =~= key + (sep + val));
    assert(s[0] == key[0]);
    assert(text::trim_start(s) == s);
    let eq = seq![' ', '='];
    let sp = seq![' '];
    assert(sep + val =~= eq + (sp + val));
    assert(s =~= (key + eq) + (sp + val));
    lemma_trim_end_append(key + eq, sp + val);
    lemma_trim_end_append(sp, val);
    assert(text::trim_end(sp).len() == 0) by {
        assert(sp.drop_last() =~= seq![]);
        reveal_with_fuel(text::trim_end, 2);
    }
    let t = text::trim(s);
    assert((key + eq).last() == '=');
    assert(text::trim_end(key + eq) == key + eq);
    let after = if v.len() > 0 { sp + v } else { seq![] };
    assert(t == (key + eq) + after) by {
        if v.len() == 0 {
            assert((key + eq) + after =~= key + eq);
        }
    }
    let n = key.len() as int + 1;
    assert forall|i: int| 0 <= i < n implies t[i] != '=' by {
        if i < key.len() {
            assert(t[i] == key[i]);
            assert(key.contains(key[i]));
        }
    }
    assert(t[n] == '=');
    text::lemma_find_is(t, '=', n);
    assert(t[0] == key[0]);
    assert(t.contains('='));
    assert(t.take(n) =~= key + sp);
    assert(t.skip(n + 1) =~= after);
    assert(text::trim(key + sp) == key) by {
        assert((key + sp)[0] == key[0]);
        assert((key + sp).drop_last() =~= key);
        reveal_with_fuel(text::trim_end, 2);
    }
    assert(text::trim(after) == v) by {
        if v.len() > 0 {
            lemma_trim_end_first(val);
            assert(v[0] == val[0]);
            assert(after.drop_first() =~= v);
            reveal_with_fuel(text::trim_start, 2);
            assert(text::trim_start(after) == v);
            lemma_trim_end_first(v);
            lemma_trim_end_twice(val);
        }
    }
}

proof fn lemma_trim_end_first(s: Seq<char>)
    ensures
        text::trim_end(s).len() <= s.len(),
        text::trim_end(s).len() > 0 ==> text::trim_end(s)[0] == s[0],
    decreases s.len(),
{
    if s.len() > 0 && text::is_space(s.last()) {
        lemma_trim_end_first(s.drop_last());
    }
}

proof fn lemma_trim_end_twice(s: Seq<char>)
    ensures
        text::trim_end(text::trim_end(s)) == text::trim_end(s),
    decreases s.len(),
{
    if s.len() > 0 && text::is_space(s.last()) {
        lemma_trim_end_twice(s.drop_last());
    }
}

/// A blank line, a comment and a mark read as such.
pub proof fn lemma_read_others(comment: Seq<char>, mark: Seq<char>)
    requires
        mark.len() > 0,
        mark[0] != '#',
        !text::is_space(mark[0]),
        !text::is_space(mark.last()),
        comment.len() > 0,
        comment[0] == '#',
    ensures
        line_view(seq![], mark) == LineView::Skip,
        line_view(comment, mark) == LineView::Skip,
        line_view(mark, mark) == LineView::Mark,
{
    assert(text::trim(mark) == mark);
    assert(text::trim_start(comment) == comment);
    lemma_trim_end_first(comment);
}

// --- locations as values ----------------------------------------------------

/// True for a location that can be kept in a file: its paths hold no line
/// feed and no space at their ends, a path on disk does not look like an
/// archive member, and an archive's path holds no tab.
pub open spec fn storable(l: vfs::LocView) -> bool {
    match l {
        vfs::LocView::Fs(p) => {
            &&& raw::is_text(p)
            &&& text::trim(p) == p
            &&& !p.contains('\n')
            &&& !text::starts_with(p, vfs::zip_mark())
        },
        vfs::LocView::Zip { archive, inner } => {
            &&& raw::is_text(archive)
            &&& archive.len() > 0
            &&& text::trim_end(archive) == archive
            &&& !archive.contains('\t')
            &&& !archive.contains('\n')
            &&& text::trim_end(inner) == inner
            &&& !inner.contains('\n')
        },
    }
}

/// True for an optional location that is not there or can be kept.
pub open spec fn opt_storable(l: Option<vfs::LocView>) -> bool {
    l matches Some(x) ==> storable(x)
}

/// A location that can be kept is written as one line and read back as itself.
pub proof fn lemma_storable(l: vfs::LocView)
    requires
        storable(l),
    ensures
        vfs::LocView::decode(text::trim_end(l.encode())) == l,
        !l.encode().contains('\n'),
        l.encode().len() > 0 ==> !text::is_space(l.encode()[0]) && l.encode().last() != '\r',
{
    let e = l.encode();
    match l {
        vfs::LocView::Fs(p) => {
            text::lemma_trim_edges(p);
            assert(text::trim_end(e) == e);
        },
        vfs::LocView::Zip { archive, inner } => {
            assert(e[0] == 'z');
            assert(!e.contains('\n')) by {
                if e.contains('\n') {
                    let i = choose|i: int| 0 <= i < e.len() && e[i] == '\n';
                    let a = archive.len();
                    if i >= 4 && i < 4 + a {
                        assert(archive[i - 4] == '\n');
                    } else if i > 4 + a {
                        assert(inner[i - 5 - a] == '\n');
                    }
                }
            }
            let front = vfs::zip_mark() + archive;
            let tab = seq!['\t'];
            assert(e =~= front + (tab + inner));
            lemma_trim_end_append(front, tab + inner);
            lemma_trim_end_append(tab, inner);
            lemma_trim_end_append(vfs::zip_mark(), archive);
            assert(text::trim_end(tab).len() == 0) by {
                assert(tab.drop_last() =~= seq![]);
                reveal_with_fuel(text::trim_end, 2);
            }
            vfs::lemma_decode_encode(l);
            if inner.len() > 0 {
                assert(text::trim_end(e) == e);
                assert(e.last() == inner.last());
                lemma_trim_end_edge(inner);
            } else {
                assert(text::trim_end(e) == front);
                assert(front.take(4) =~= vfs::zip_mark());
                assert(front.skip(4) =~= archive);
                text::lemma_find(archive, '\t');
                assert(inner =~= seq![]);
                assert(e.last() == '\t');
            }
        },
    }
}

proof fn lemma_trim_end_edge(s: Seq<char>)
    requires
        text::trim_end(s) == s,
        s.len() > 0,
    ensures
        !text::is_space(s.last()),
{
    if text::is_space(s.last()) {
        lemma_trim_end_first(s.drop_last());
    }
}

} // verus!
