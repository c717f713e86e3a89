//! Text as sequences of characters: the splitting, trimming, matching and
//! number formatting the rest of the library is built on.

use crate::ascii;
use vstd::prelude::*;
use vstd::string::*;

verus! {

// --- outside functions ------------------------------------------------------

/// `String::push` puts the character at the end of the string.
pub assume_specification[ String::push ](s: &mut String, c: char)
    ensures
        final(s)@ == old(s)@.push(c),
;

/// What `str::to_lowercase` makes of a text: the Unicode lower-case mapping,
/// which depends on the text alone.
pub uninterp spec fn lowercase(s: Seq<char>) -> Seq<char>;

/// Calls `str::to_lowercase`. Of a text of ASCII characters it is claimed that
/// each capital letter becomes the small one and all else stays; of any other
/// text only that the result is `lowercase` of it.
#[verifier::external_body]
fn call_to_lowercase(s: &str) -> (r: String)
    ensures
        r@ == lowercase(s@),
        is_ascii_text(s@) ==> r@ == ascii::lower_ascii(s@),
{
    s.to_lowercase()
}

/// True for a text of ASCII characters.
pub open spec fn is_ascii_text(s: Seq<char>) -> bool {
    forall|i: int| 0 <= i < s.len() ==> (#[trigger] s[i]) as int <= 127
}

/// A text in lower case.
pub open spec fn lower(s: Seq<char>) -> Seq<char> {
    if is_ascii_text(s) {
        ascii::lower_ascii(s)
    } else {
        lowercase(s)
    }
}

pub(crate) fn to_lower(s: &str) -> (r: String)
    ensures
        r@ == lower(s@),
{
    call_to_lowercase(s)
}

/// An empty text stays empty in lower case.
pub proof fn lemma_lower_empty()
    ensures
        lower(seq![]) == Seq::<char>::empty(),
{
    assert(lower(seq![]) =~= Seq::<char>::empty());
}

// --- characters and strings -------------------------------------------------

/// The characters of a text.
pub fn chars_of(s: &str) -> (r: Vec<char>)
    ensures
        r@ == s@,
{
    let mut r: Vec<char> = Vec::new();
    for c in it: s.chars()
        invariant
            r@ == it.seq().take(it.index() as int),
            it.seq() == s@,
    {
        r.push(c);
        assert(it.seq().take(it.index() as int + 1) =~= it.seq().take(it.index() as int).push(c));
    }
    assert(s@.take(s@.len() as int) =~= s@);
    r
}

/// The text made of the characters `from..to` of `cs`.
pub fn string_of(cs: &Vec<char>, from: usize, to: usize) -> (r: String)
    requires
        from <= to <= cs@.len(),
    ensures
        r@ == cs@.subrange(from as int, to as int),
{
    let mut r = String::new();
    let mut i: usize = from;
    while i < to
        invariant
            from <= i <= to <= cs@.len(),
            r@ == cs@.subrange(from as int, i as int),
        decreases to - i,
    {
        r.push(cs[i]);
        assert(cs@.subrange(from as int, i + 1) =~= cs@.subrange(from as int, i as int).push(
            cs@[i as int],
        ));
        i = i + 1;
    }
    r
}

/// True when the two texts hold the same characters.
pub fn same_text(a: &str, b: &str) -> (r: bool)
    ensures
        r == (a@ == b@),
{
    let x = chars_of(a);
    let y = chars_of(b);
    if x.len() != y.len() {
        return false;
    }
    let mut i: usize = 0;
    while i < x.len()
        invariant
            i <= x.len(),
            x@.len() == y@.len(),
            x@ == a@,
            y@ == b@,
            forall|k: int| 0 <= k < i ==> x@[k] == y@[k],
        decreases x.len() - i,
    {
        if x[i] != y[i] {
            return false;
        }
        i = i + 1;
    }
    assert(x@ =~= y@);
    true
}

/// The texts a list of strings holds.
pub open spec fn texts(v: Seq<String>) -> Seq<Seq<char>> {
    v.map_values(|s: String| s@)
}

/// A copy of a list of strings.
pub fn clone_strings(v: &Vec<String>) -> (r: Vec<String>)
    ensures
        r@ == v@,
{
    let mut r: Vec<String> = Vec::new();
    let mut i: usize = 0;
    while i < v.len()
        invariant
            i <= v.len(),
            r@ == v@.take(i as int),
        decreases v.len() - i,
    {
        r.push(v[i].clone());
        assert(v@.take(i + 1) =~= v@.take(i as int).push(v@[i as int]));
        i = i + 1;
    }
    assert(v@.take(v@.len() as int) =~= v@);
    r
}

// --- finding and splitting --------------------------------------------------

/// Where `c` first occurs in `s`, or the length of `s` when it does not.
pub open spec fn find(s: Seq<char>, c: char) -> int
    decreases s.len(),
{
    if s.len() == 0 {
        0
    } else if s[0] == c {
        0
    } else {
        1 + find(s.drop_first(), c)
    }
}

/// What `find` is, without the recursion.
pub proof fn lemma_find(s: Seq<char>, c: char)
    ensures
        0 <= find(s, c) <= s.len(),
        find(s, c) < s.len() ==> s[find(s, c)] == c,
        forall|i: int| 0 <= i < find(s, c) ==> s[i] != c,
        find(s, c) < s.len() <==> s.contains(c),
    decreases s.len(),
{
    if s.len() > 0 && s[0] != c {
        lemma_find(s.drop_first(), c);
        let k = find(s.drop_first(), c);
        assert forall|i: int| 0 <= i < 1 + k implies s[i] != c by {
            if i > 0 {
                assert(s[i] == s.drop_first()[i - 1]);
            }
        }
    }
    if s.contains(c) {
        let i = choose|i: int| 0 <= i < s.len() && s[i] == c;
        assert(find(s, c) <= i);
    }
}

/// The first occurrence is the only index with these properties.
pub proof fn lemma_find_is(s: Seq<char>, c: char, k: int)
    requires
        0 <= k <= s.len(),
        k < s.len() ==> s[k] == c,
        forall|i: int| 0 <= i < k ==> s[i] != c,
    ensures
        find(s, c) == k,
{
    lemma_find(s, c);
    let f = find(s, c);
    if f < k {
        assert(s[f] == c);
    }
    if k < f {
        assert(s[k] != c);
    }
}

/// The index just past the last occurrence of `c` in `s`, or 0.
pub open spec fn past_last(s: Seq<char>, c: char) -> int
    decreases s.len(),
{
    if s.len() == 0 {
        0
    } else if s.last() == c {
        s.len() as int
    } else {
        past_last(s.drop_last(), c)
    }
}

/// What `past_last` is, without the recursion.
pub proof fn lemma_past_last(s: Seq<char>, c: char)
    ensures
        0 <= past_last(s, c) <= s.len(),
        past_last(s, c) > 0 ==> s[past_last(s, c) - 1] == c,
        forall|i: int| past_last(s, c) <= i < s.len() ==> s[i] != c,
    decreases s.len(),
{
    if s.len() > 0 && s.last() != c {
        let t = s.drop_last();
        lemma_past_last(t, c);
        assert forall|i: int| past_last(t, c) <= i < s.len() implies s[i] != c by {
            if i < t.len() {
                assert(t[i] == s[i]);
            }
        }
    }
}

/// No other index has these properties.
pub proof fn lemma_past_last_is(s: Seq<char>, c: char, k: int)
    requires
        0 <= k <= s.len(),
        k > 0 ==> s[k - 1] == c,
        forall|i: int| k <= i < s.len() ==> s[i] != c,
    ensures
        past_last(s, c) == k,
{
    lemma_past_last(s, c);
    let f = past_last(s, c);
    if f > k {
        assert(s[f - 1] == c);
    }
    if k > f {
        assert(s[k - 1] != c);
    }
}

/// The index of the first `c` at or after `from`, or the length.
pub fn find_from(cs: &Vec<char>, from: usize, c: char) -> (r: usize)
    requires
        from <= cs@.len(),
    ensures
        r == from + find(cs@.skip(from as int), c),
        from <= r <= cs@.len(),
{
    let mut i: usize = from;
    while i < cs.len() && cs[i] != c
        invariant
            from <= i <= cs@.len(),
            forall|k: int| from <= k < i ==> cs@[k] != c,
        decreases cs.len() - i,
    {
        i = i + 1;
    }
    proof {
        let t = cs@.skip(from as int);
        assert forall|k: int| 0 <= k < i - from implies t[k] != c by {
            assert(t[k] == cs@[from + k]);
        }
        lemma_find_is(t, c, i - from);
    }
    i
}

/// The index just past the last `c` in `cs`, or 0.
pub fn past_last_in(cs: &Vec<char>, c: char) -> (r: usize)
    ensures
        r == past_last(cs@, c),
        r <= cs@.len(),
{
    let mut i: usize = cs.len();
    while i > 0 && cs[i - 1] != c
        invariant
            i <= cs@.len(),
            forall|k: int| i <= k < cs@.len() ==> cs@[k] != c,
        decreases i,
    {
        i = i - 1;
    }
    proof {
        lemma_past_last_is(cs@, c, i as int);
    }
    i
}

/// `s` split at the first `c`: what stands before it and what stands after.
pub open spec fn split_at_first(s: Seq<char>, c: char) -> Option<(Seq<char>, Seq<char>)> {
    let k = find(s, c);
    if k < s.len() {
        Some((s.take(k), s.skip(k + 1)))
    } else {
        None
    }
}

pub fn split_once(s: &str, c: char) -> (r: Option<(String, String)>)
    ensures
        match split_at_first(s@, c) {
            Some((a, b)) => r matches Some((x, y)) && x@ == a && y@ == b,
            None => r is None,
        },
{
    let cs = chars_of(s);
    let k = find_from(&cs, 0, c);
    assert(cs@.skip(0) =~= cs@);
    if k < cs.len() {
        let a = string_of(&cs, 0, k);
        let b = string_of(&cs, k + 1, cs.len());
        assert(s@.subrange(0, k as int) =~= s@.take(k as int));
        assert(s@.subrange(k + 1, s@.len() as int) =~= s@.skip(k + 1));
        Some((a, b))
    } else {
        None
    }
}

/// `s` cut at every `c`; an empty text has one empty part.
pub open spec fn split(s: Seq<char>, c: char) -> Seq<Seq<char>>
    decreases s.len(),
    via split_decreases
{
    let k = find(s, c);
    if k < s.len() {
        seq![s.take(k)] + split(s.skip(k + 1), c)
    } else {
        seq![s]
    }
}

#[via_fn]
proof fn split_decreases(s: Seq<char>, c: char) {
    lemma_find(s, c);
}

/// The lines of a text: each is ended by a line feed or by the end of the
/// text, and a carriage return before the line feed belongs to the line end.
pub open spec fn lines(s: Seq<char>) -> Seq<Seq<char>>
    decreases s.len(),
    via lines_decreases
{
    let k = find(s, '\n');
    if s.len() == 0 {
        seq![]
    } else if k < s.len() {
        seq![strip_cr(s.take(k))] + lines(s.skip(k + 1))
    } else {
        seq![s]
    }
}

#[via_fn]
proof fn lines_decreases(s: Seq<char>) {
    lemma_find(s, '\n');
}

/// `s` without a carriage return at its end.
pub open spec fn strip_cr(s: Seq<char>) -> Seq<char> {
    if s.len() > 0 && s.last() == '\r' {
        s.drop_last()
    } else {
        s
    }
}

pub fn split_lines(s: &str) -> (r: Vec<String>)
    ensures
        texts(r@) == lines(s@),
{
    let cs = chars_of(s);
    let mut r: Vec<String> = Vec::new();
    let mut i: usize = 0;
    assert(cs@.skip(0) =~= cs@);
    assert(texts(r@) =~= seq![]);
    while i < cs.len()
        invariant
            i <= cs@.len(),
            cs@ == s@,
            texts(r@) + lines(cs@.skip(i as int)) == lines(s@),
        decreases cs.len() - i,
    {
        let ghost rest = cs@.skip(i as int);
        let k = find_from(&cs, i, '\n');
        let mut e: usize = k;
        if k < cs.len() && k > i && cs[k - 1] == '\r' {
            e = k - 1;
        }
        let line = string_of(&cs, i, e);
        let ghost before = r@;
        r.push(line);
        let next: usize = if k < cs.len() { k + 1 } else { k };
        proof {
            lemma_find(rest, '\n');
            assert(texts(r@) =~= texts(before).push(line@));
            if k < cs@.len() {
                assert(rest.take(k - i) =~= cs@.subrange(i as int, k as int));
                assert(line@ =~= strip_cr(rest.take(k - i)));
                assert(rest.skip(k - i + 1) =~= cs@.skip(k + 1));
                assert(texts(before) + (seq![line@] + lines(cs@.skip(k + 1))) =~= texts(r@) + lines(
                    cs@.skip(k + 1),
                ));
            } else {
                assert(line@ =~= rest);
                assert(cs@.skip(k as int) =~= seq![]);
                assert(texts(before) + seq![rest] =~= texts(r@) + lines(cs@.skip(k as int)));
            }
        }
        i = next;
    }
    assert(cs@.skip(i as int) =~= seq![]);
    assert(texts(r@) + lines(cs@.skip(i as int)) =~= texts(r@));
    r
}

// --- trimming and matching --------------------------------------------------

/// Unicode white space, as `char::is_whitespace` has it.
pub open spec fn is_space(c: char) -> bool {
    ||| 0x9 <= c as int <= 0xd
    ||| c as int == 0x20
    ||| c as int == 0x85
    ||| c as int == 0xa0
    ||| c as int == 0x1680
    ||| 0x2000 <= c as int <= 0x200a
    ||| c as int == 0x2028
    ||| c as int == 0x2029
    ||| c as int == 0x202f
    ||| c as int == 0x205f
    ||| c as int == 0x3000
}

pub fn is_space_char(c: char) -> (r: bool)
    ensures
        r == is_space(c),
{
    let n: u32 = c as u32;
    (0x9 <= n && n <= 0xd) || n == 0x20 || n == 0x85 || n == 0xa0 || n == 0x1680 || (0x2000 <= n
        && n <= 0x200a) || n == 0x2028 || n == 0x2029 || n == 0x202f || n == 0x205f || n == 0x3000
}

/// `s` without white space at its start.
pub open spec fn trim_start(s: Seq<char>) -> Seq<char>
    decreases s.len(),
{
    if s.len() > 0 && is_space(s[0]) {
        trim_start(s.drop_first())
    } else {
        s
    }
}

/// `s` without white space at its end.
pub open spec fn trim_end(s: Seq<char>) -> Seq<char>
    decreases s.len(),
{
    if s.len() > 0 && is_space(s.last()) {
        trim_end(s.drop_last())
    } else {
        s
    }
}

/// `s` without white space at either end.
pub open spec fn trim(s: Seq<char>) -> Seq<char> {
    trim_end(trim_start(s))
}

/// A text that neither starts nor ends with white space is its own trim.
pub proof fn lemma_trim_id(s: Seq<char>)
    requires
        s.len() > 0 ==> !is_space(s[0]) && !is_space(s.last()),
    ensures
        trim(s) == s,
{
}

/// What trimming leaves neither starts nor ends with white space.
pub proof fn lemma_trim_edges(s: Seq<char>)
    ensures
        trim(s).len() > 0 ==> !is_space(trim(s)[0]) && !is_space(trim(s).last()),
        trim(trim(s)) == trim(s),
    decreases s.len(),
{
    lemma_trim_start_edge(s);
    lemma_trim_end_edge(trim_start(s));
}

proof fn lemma_trim_start_edge(s: Seq<char>)
    ensures
        trim_start(s).len() > 0 ==> !is_space(trim_start(s)[0]),
    decreases s.len(),
{
    if s.len() > 0 && is_space(s[0]) {
        lemma_trim_start_edge(s.drop_first());
    }
}

proof fn lemma_trim_end_edge(s: Seq<char>)
    ensures
        trim_end(s).len() > 0 ==> !is_space(trim_end(s).last()) && trim_end(s)[0] == s[0],
        trim_end(s).len() <= s.len(),
    decreases s.len(),
{
    if s.len() > 0 && is_space(s.last()) {
        lemma_trim_end_edge(s.drop_last());
    }
}

proof fn lemma_trim_start_at(s: Seq<char>, k: int)
    requires
        0 <= k <= s.len(),
        forall|i: int| 0 <= i < k ==> is_space(s[i]),
        k < s.len() ==> !is_space(s[k]),
    ensures
        trim_start(s) == s.skip(k),
    decreases k,
{
    if k > 0 {
        let t = s.drop_first();
        assert forall|i: int| 0 <= i < k - 1 implies is_space(t[i]) by {
            assert(t[i] == s[i + 1]);
        }
        lemma_trim_start_at(t, k - 1);
        assert(t.skip(k - 1) =~= s.skip(k));
    } else {
        assert(s.skip(0) =~= s);
    }
}

proof fn lemma_trim_end_at(s: Seq<char>, k: int)
    requires
        0 <= k <= s.len(),
        forall|i: int| k <= i < s.len() ==> is_space(s[i]),
        k > 0 ==> !is_space(s[k - 1]),
    ensures
        trim_end(s) == s.take(k),
    decreases s.len() - k,
{
    if k < s.len() {
        lemma_trim_end_at(s.drop_last(), k);
        assert(s.drop_last().take(k) =~= s.take(k));
    } else {
        assert(s.take(k) =~= s);
    }
}

pub fn trimmed(s: &str) -> (r: String)
    ensures
        r@ == trim(s@),
{
    let cs = chars_of(s);
    let mut a: usize = 0;
    while a < cs.len() && is_space_char(cs[a])
        invariant
            a <= cs@.len(),
            forall|i: int| 0 <= i < a ==> is_space(cs@[i]),
        decreases cs.len() - a,
    {
        a = a + 1;
    }
    let mut b: usize = cs.len();
    while b > a && is_space_char(cs[b - 1])
        invariant
            a <= b <= cs@.len(),
            forall|i: int| b <= i < cs@.len() ==> is_space(cs@[i]),
        decreases b,
    {
        b = b - 1;
    }
    let r = string_of(&cs, a, b);
    proof {
        lemma_trim_start_at(cs@, a as int);
        let t = cs@.skip(a as int);
        lemma_trim_end_at(t, b - a);
        assert(t.take(b - a) =~= cs@.subrange(a as int, b as int));
    }
    r
}

/// True when `s` begins with `p`.
pub open spec fn starts_with(s: Seq<char>, p: Seq<char>) -> bool {
    p.len() <= s.len() && s.take(p.len() as int) == p
}

/// True when `s` ends with `p`.
pub open spec fn ends_with(s: Seq<char>, p: Seq<char>) -> bool {
    p.len() <= s.len() && s.skip(s.len() - p.len()) == p
}

/// True when `p` stands in `s` at index `i`.
pub open spec fn occurs_at(s: Seq<char>, p: Seq<char>, i: int) -> bool {
    0 <= i && i + p.len() <= s.len() && s.subrange(i, i + p.len()) == p
}

/// True when `p` stands somewhere in `s`.
pub open spec fn has(s: Seq<char>, p: Seq<char>) -> bool {
    exists|i: int| occurs_at(s, p, i)
}

fn matches_at(s: &Vec<char>, p: &Vec<char>, i: usize) -> (r: bool)
    requires
        i + p@.len() <= s@.len(),
    ensures
        r == occurs_at(s@, p@, i as int),
{
    let n: usize = s.len();
    let mut k: usize = 0;
    while k < p.len()
        invariant
            k <= p@.len(),
            n == s@.len(),
            i + p@.len() <= n,
            forall|j: int| 0 <= j < k ==> s@[i + j] == p@[j],
        decreases p.len() - k,
    {
        if s[i + k] != p[k] {
            proof {
                assert(s@.subrange(i as int, i + p@.len())[k as int] != p@[k as int]);
            }
            return false;
        }
        k = k + 1;
    }
    assert(s@.subrange(i as int, i + p@.len()) =~= p@);
    true
}

pub fn begins(s: &str, p: &str) -> (r: bool)
    ensures
        r == starts_with(s@, p@),
{
    let a = chars_of(s);
    let b = chars_of(p);
    if b.len() > a.len() {
        return false;
    }
    proof {
        assert(s@.subrange(0, p@.len() as int) =~= s@.take(p@.len() as int));
    }
    matches_at(&a, &b, 0)
}

pub fn ends(s: &str, p: &str) -> (r: bool)
    ensures
        r == ends_with(s@, p@),
{
    let a = chars_of(s);
    let b = chars_of(p);
    if b.len() > a.len() {
        return false;
    }
    proof {
        let k = s@.len() - p@.len();
        assert(s@.subrange(k, k + p@.len()) =~= s@.skip(k));
    }
    matches_at(&a, &b, a.len() - b.len())
}

pub fn contains(s: &str, p: &str) -> (r: bool)
    ensures
        r == has(s@, p@),
{
    let a = chars_of(s);
    let b = chars_of(p);
    if b.len() > a.len() {
        return false;
    }
    let last: usize = a.len() - b.len();
    let mut i: usize = 0;
    while i <= last
        invariant
            a@ == s@,
            b@ == p@,
            last == a@.len() - b@.len(),
            i <= last + 1,
            forall|j: int| 0 <= j < i ==> !occurs_at(s@, p@, j),
        decreases last + 1 - i,
    {
        if matches_at(&a, &b, i) {
            return true;
        }
        if i == last {
            assert forall|j: int| !occurs_at(s@, p@, j) by {
                if 0 <= j <= last {
                    assert(j < i || j == i);
                }
            }
            return false;
        }
        i = i + 1;
    }
    false
}

/// `s` without the prefix `p`, when it has it.
pub open spec fn without_prefix(s: Seq<char>, p: Seq<char>) -> Option<Seq<char>> {
    if starts_with(s, p) {
        Some(s.skip(p.len() as int))
    } else {
        None
    }
}

pub fn strip_prefix(s: &str, p: &str) -> (r: Option<String>)
    ensures
        match without_prefix(s@, p@) {
            Some(t) => r matches Some(x) && x@ == t,
            None => r is None,
        },
{
    if begins(s, p) {
        let cs = chars_of(s);
        let n: usize = p.unicode_len();
        let x = string_of(&cs, n, cs.len());
        assert(x@ =~= s@.skip(n as int));
        Some(x)
    } else {
        None
    }
}

} // verus!
