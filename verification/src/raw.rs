//! Paths whose bytes are not all text.
//!
//! A path is handled as a text. Bytes in it that are no UTF-8 stand between two
//! NUL characters, which no path holds, as the characters of the same numbers.
//! So a path keeps all its bytes, and two paths are the same text when they are
//! the same bytes. What the user reads, and what is written to a file, shows a
//! replacement character in place of each such run.

use crate::text;
use crate::text::{chars_of, find_from};
use vstd::prelude::*;
use vstd::string::*;

verus! {

/// A piece of a path: a character, or a run of bytes that is no UTF-8.
#[derive(Debug)]
pub enum Piece {
    Char(char),
    Bytes(Vec<u8>),
}

/// The text that holds a run of bytes.
pub open spec fn held(b: Seq<u8>) -> Seq<char> {
    seq!['\0'] + b.map_values(|x: u8| x as char) + seq!['\0']
}

impl View for Piece {
    type V = Seq<char>;

    /// The text of a piece.
    open spec fn view(&self) -> Seq<char> {
        match self {
            Piece::Char(c) => seq![*c],
            Piece::Bytes(b) => held(b@),
        }
    }
}

/// The texts of the pieces in a list.
pub open spec fn piece_texts(v: Seq<Piece>) -> Seq<Seq<char>> {
    v.map_values(|p: Piece| p@)
}

/// True for the characters that stand for a run of bytes, none of them ASCII.
pub open spec fn is_run(s: Seq<char>) -> bool {
    s.len() > 0 && forall|i: int| 0 <= i < s.len() ==> 0x80 <= (#[trigger] s[i]) as int <= 0xff
}

/// How many characters at the start of `s` hold a run of bytes.
pub open spec fn run_len(s: Seq<char>) -> int {
    let m = text::find(s.skip(1), '\0');
    if s.len() > 0 && s[0] == '\0' && 1 + m < s.len() && is_run(s.subrange(1, 1 + m)) {
        m + 2
    } else {
        0
    }
}

proof fn lemma_run_len(s: Seq<char>)
    ensures
        0 <= run_len(s) <= s.len(),
        run_len(s) > 0 ==> run_len(s) > 2 && s[run_len(s) - 1] == '\0',
{
    text::lemma_find(s.skip(1), '\0');
    if run_len(s) > 0 {
        assert(s.skip(1)[run_len(s) - 2] == s[run_len(s) - 1]);
    }
}

/// The texts of the pieces of a path.
pub open spec fn pieces(s: Seq<char>) -> Seq<Seq<char>>
    decreases s.len(),
    via pieces_decreases
{
    let n = run_len(s);
    if s.len() == 0 {
        seq![]
    } else if n > 0 {
        seq![s.take(n)] + pieces(s.skip(n))
    } else {
        seq![s.take(1)] + pieces(s.skip(1))
    }
}

#[via_fn]
proof fn pieces_decreases(s: Seq<char>) {
    lemma_run_len(s);
}

/// A piece as it is shown.
pub open spec fn shown_piece(p: Seq<char>) -> Seq<char> {
    if p.len() == 1 {
        p
    } else {
        seq!['\u{fffd}']
    }
}

/// The texts one after another.
pub open spec fn joined(v: Seq<Seq<char>>) -> Seq<char>
    decreases v.len(),
{
    if v.len() == 0 {
        seq![]
    } else {
        joined(v.drop_last()) + v.last()
    }
}

/// A path as it is shown and written: with a replacement character in place of
/// each run of bytes that is no UTF-8.
pub open spec fn shown(s: Seq<char>) -> Seq<char> {
    joined(pieces(s).map_values(|p: Seq<char>| shown_piece(p)))
}

/// True for a path that is text throughout.
pub open spec fn is_text(s: Seq<char>) -> bool {
    shown(s) == s
}

/// True for the text of a piece of a path: a character other than NUL, or bytes
/// that are no ASCII.
pub open spec fn is_piece(p: Seq<char>) -> bool {
    if p.len() == 1 {
        p[0] != '\0'
    } else {
        p.len() > 2 && p[0] == '\0' && is_run(p.subrange(1, p.len() - 1)) && p.last() == '\0'
    }
}

proof fn lemma_joined_front(p: Seq<char>, v: Seq<Seq<char>>)
    ensures
        joined(seq![p] + v) == p + joined(v),
    decreases v.len(),
{
    let w = seq![p] + v;
    if v.len() == 0 {
        assert(w.drop_last() =~= seq![]);
        assert(w.last() == p);
        reveal_with_fuel(joined, 2);
        assert(joined(w) =~= p + joined(v));
    } else {
        lemma_joined_front(p, v.drop_last());
        assert(w.drop_last() =~= seq![p] + v.drop_last());
        assert(w.last() == v.last());
        assert(joined(w) =~= p + joined(v));
    }
}

/// A text without NUL is shown as it is.
pub proof fn lemma_text(s: Seq<char>)
    requires
        !s.contains('\0'),
    ensures
        is_text(s),
    decreases s.len(),
{
    let f = |p: Seq<char>| shown_piece(p);
    if s.len() > 0 {
        let t = s.skip(1);
        assert(s.contains(s[0]));
        assert(!t.contains('\0')) by {
            if t.contains('\0') {
                let i = choose|i: int| 0 <= i < t.len() && t[i] == '\0';
                assert(s[i + 1] == '\0');
            }
        }
        lemma_text(t);
        assert(pieces(s).map_values(f) =~= seq![s.take(1)] + pieces(t).map_values(f));
        lemma_joined_front(s.take(1), pieces(t).map_values(f));
        assert(s.take(1) + t =~= s);
    } else {
        assert(pieces(s).map_values(f) =~= seq![]);
        assert(s =~= seq![]);
    }
}

/// A path is the text of its pieces.
pub proof fn lemma_joined_pieces(s: Seq<char>)
    ensures
        joined(pieces(s)) == s,
    decreases s.len(),
{
    lemma_run_len(s);
    if s.len() == 0 {
        assert(joined(pieces(s)) =~= s);
    } else {
        let n = if run_len(s) > 0 { run_len(s) } else { 1 };
        lemma_joined_pieces(s.skip(n));
        lemma_joined_front(s.take(n), pieces(s.skip(n)));
        assert(s.take(n) + s.skip(n) =~= s);
    }
}

/// The pieces that a path was made of are found in its text again: a path keeps
/// its bytes.
pub proof fn lemma_pieces_joined(v: Seq<Seq<char>>)
    requires
        forall|i: int| 0 <= i < v.len() ==> is_piece(#[trigger] v[i]),
    ensures
        pieces(joined(v)) == v,
    decreases v.len(),
{
    let s = joined(v);
    if v.len() > 0 {
        let p = v[0];
        let w = v.skip(1);
        let m = p.len() as int;
        assert(v =~= seq![p] + w);
        assert forall|i: int| 0 <= i < w.len() implies is_piece(#[trigger] w[i]) by {
            assert(w[i] == v[i + 1]);
        }
        lemma_pieces_joined(w);
        lemma_joined_front(p, w);
        assert(is_piece(v[0]));
        assert(s.take(m) =~= p);
        assert(s.skip(m) =~= joined(w));
        assert(s[0] == p[0]);
        if m > 1 {
            let u = s.skip(1);
            let r = p.subrange(1, m - 1);
            assert forall|i: int| 0 <= i < m - 2 implies u[i] != '\0' by {
                assert(u[i] == r[i]);
                assert(0x80 <= r[i] as int);
            }
            assert(u[m - 2] == p[m - 1]);
            text::lemma_find_is(u, '\0', m - 2);
            assert(s.subrange(1, m - 1) =~= r);
            assert(run_len(s) == m);
        } else {
            assert(run_len(s) == 0);
        }
        assert(pieces(s) =~= v);
    } else {
        assert(pieces(s) =~= v);
    }
}

// --- in code ----------------------------------------------------------------

fn is_byte(c: char) -> (r: bool)
    ensures
        r == (0x80 <= c as int <= 0xff),
{
    let n: u32 = c as u32;
    0x80 <= n && n <= 0xff
}

fn byte_of(c: char) -> (r: u8)
    requires
        0x80 <= c as int <= 0xff,
    ensures
        r as char == c,
{
    let n: u32 = c as u32;
    n as u8
}

fn char_piece(c: char) -> (r: Piece)
    ensures
        r@ == seq![c],
{
    Piece::Char(c)
}

fn is_run_at(cs: &Vec<char>, from: usize, to: usize) -> (r: bool)
    requires
        from <= to <= cs@.len(),
    ensures
        r == is_run(cs@.subrange(from as int, to as int)),
{
    let ghost t = cs@.subrange(from as int, to as int);
    let mut i: usize = from;
    while i < to
        invariant
            from <= i <= to <= cs@.len(),
            t == cs@.subrange(from as int, to as int),
            forall|k: int| 0 <= k < i - from ==> 0x80 <= (#[trigger] t[k]) as int <= 0xff,
        decreases to - i,
    {
        assert(t[i - from] == cs@[i as int]);
        if !is_byte(cs[i]) {
            return false;
        }
        i = i + 1;
    }
    from < to
}

/// The bytes of the run from `from` to `to`.
fn run_at(cs: &Vec<char>, from: usize, to: usize) -> (r: Vec<u8>)
    requires
        from <= to <= cs@.len(),
        is_run(cs@.subrange(from as int, to as int)),
    ensures
        r@.map_values(|x: u8| x as char) == cs@.subrange(from as int, to as int),
{
    let ghost t = cs@.subrange(from as int, to as int);
    let mut b: Vec<u8> = Vec::new();
    let mut i: usize = from;
    while i < to
        invariant
            from <= i <= to <= cs@.len(),
            t == cs@.subrange(from as int, to as int),
            is_run(t),
            b@.len() == i - from,
            forall|k: int| 0 <= k < b@.len() ==> (#[trigger] b@[k]) as char == t[k],
        decreases to - i,
    {
        assert(t[i - from] == cs@[i as int]);
        b.push(byte_of(cs[i]));
        i = i + 1;
    }
    assert(b@.map_values(|x: u8| x as char) =~= t);
    b
}

/// The pieces of a path.
pub fn pieces_of(s: &str) -> (r: Vec<Piece>)
    ensures
        piece_texts(r@) == pieces(s@),
{
    let cs = chars_of(s);
    let n: usize = cs.len();
    let mut r: Vec<Piece> = Vec::new();
    let mut i: usize = 0;
    proof {
        assert(s@.skip(0) =~= s@);
        assert(piece_texts(r@) + pieces(s@) =~= pieces(s@));
    }
    while i < n
        invariant
            n == cs@.len(),
            cs@ == s@,
            i <= n,
            piece_texts(r@) + pieces(s@.skip(i as int)) == pieces(s@),
        decreases n - i,
    {
        let ghost rest = s@.skip(i as int);
        let ghost before = piece_texts(r@);
        let end: usize = find_from(&cs, i + 1, '\0');
        proof {
            lemma_run_len(rest);
            assert(rest.skip(1) =~= s@.skip(i + 1));
            assert(rest[0] == cs@[i as int]);
            assert(end < n ==> rest.subrange(1, end - i) =~= cs@.subrange(i + 1, end as int));
        }
        if cs[i] == '\0' && end < n && is_run_at(&cs, i + 1, end) {
            let b = run_at(&cs, i + 1, end);
            assert(held(b@) =~= rest.take(end + 1 - i)) by {
                assert(cs@[end as int] == '\0') by {
                    text::lemma_find(s@.skip(i + 1), '\0');
                }
            }
            r.push(Piece::Bytes(b));
            proof {
                let p = rest.take(end + 1 - i);
                assert(piece_texts(r@) =~= before.push(p));
                assert(run_len(rest) == end + 1 - i);
                assert(rest.skip(run_len(rest)) =~= s@.skip(end + 1));
                assert(before + pieces(rest) =~= before.push(p) + pieces(s@.skip(end + 1)));
            }
            i = end + 1;
        } else {
            r.push(char_piece(cs[i]));
            proof {
                let p = rest.take(1);
                assert(run_len(rest) == 0);
                assert(seq![cs@[i as int]] =~= p);
                assert(piece_texts(r@) =~= before.push(p));
                assert(before + pieces(rest) =~= before.push(p) + pieces(s@.skip(i + 1)));
            }
            i = i + 1;
        }
    }
    proof {
        assert(s@.skip(n as int) =~= seq![]);
        assert(piece_texts(r@) + pieces(s@.skip(n as int)) =~= piece_texts(r@));
    }
    r
}

/// The text of a path made of these pieces.
pub fn join_pieces(v: &Vec<Piece>) -> (r: String)
    ensures
        r@ == joined(piece_texts(v@)),
{
    let ghost t = piece_texts(v@);
    let mut r = String::new();
    let mut i: usize = 0;
    assert(t.take(0) =~= seq![]);
    assert(r@ =~= joined(t.take(0)));
    while i < v.len()
        invariant
            i <= v@.len(),
            t == piece_texts(v@),
            r@ == joined(t.take(i as int)),
        decreases v.len() - i,
    {
        let ghost before = r@;
        assert(t.take(i + 1).drop_last() =~= t.take(i as int));
        assert(t.take(i + 1).last() == v@[i as int]@);
        match &v[i] {
            Piece::Char(c) => {
                r.push(*c);
                assert(r@ =~= before + seq![*c]);
            },
            Piece::Bytes(b) => {
                r.push('\0');
                let ghost run = b@.map_values(|x: u8| x as char);
                let mut k: usize = 0;
                assert(r@ =~= before + seq!['\0'] + run.take(0));
                while k < b.len()
                    invariant
                        k <= b@.len(),
                        run == b@.map_values(|x: u8| x as char),
                        r@ == before + seq!['\0'] + run.take(k as int),
                    decreases b.len() - k,
                {
                    r.push(b[k] as char);
                    assert(run.take(k + 1) =~= run.take(k as int).push(run[k as int]));
                    assert(r@ =~= before + seq!['\0'] + run.take(k + 1));
                    k = k + 1;
                }
                r.push('\0');
                assert(run.take(run.len() as int) =~= run);
                assert(r@ =~= before + held(b@));
            },
        }
        i = i + 1;
    }
    assert(t.take(t.len() as int) =~= t);
    r
}

/// A path as it is shown.
pub fn shown_text(s: &str) -> (r: String)
    ensures
        r@ == shown(s@),
{
    let v = pieces_of(s);
    let ghost f = |p: Seq<char>| shown_piece(p);
    let ghost t = pieces(s@).map_values(f);
    let mut r = String::new();
    let mut i: usize = 0;
    assert(t.take(0) =~= seq![]);
    assert(r@ =~= joined(t.take(0)));
    assert(t.len() == piece_texts(v@).len());
    while i < v.len()
        invariant
            i <= v@.len(),
            v@.len() == t.len(),
            piece_texts(v@) == pieces(s@),
            t == pieces(s@).map_values(f),
            f == (|p: Seq<char>| shown_piece(p)),
            r@ == joined(t.take(i as int)),
        decreases v.len() - i,
    {
        let ghost before = r@;
        assert(t.take(i + 1).drop_last() =~= t.take(i as int));
        assert(pieces(s@)[i as int] == v@[i as int]@);
        assert(t.take(i + 1).last() == shown_piece(v@[i as int]@));
        match &v[i] {
            Piece::Char(c) => {
                r.push(*c);
                assert(r@ =~= before + seq![*c]);
            },
            Piece::Bytes(b) => {
                r.push('\u{fffd}');
                assert(held(b@).len() != 1);
                assert(r@ =~= before + seq!['\u{fffd}']);
            },
        }
        i = i + 1;
    }
    assert(t.take(t.len() as int) =~= t);
    r
}

} // verus!
