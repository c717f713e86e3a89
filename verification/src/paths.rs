//! Unix paths as texts: their components, parents, names and extensions, and
//! the lexical operations on them.

use crate::text;
use crate::text::{chars_of, find_from, same_text, string_of};
use vstd::prelude::*;
use vstd::string::*;

verus! {

// --- components -------------------------------------------------------------

/// What a path names, whatever its spelling: whether it starts at the root,
/// and its components. Doubled or trailing slashes and inner `.` components
/// say nothing and are left out; a leading `.` is a component.
#[verifier::ext_equal]
pub struct PathKey {
    pub root: bool,
    pub segs: Seq<Seq<char>>,
}

/// The component `.`.
pub open spec fn dot() -> Seq<char> {
    seq!['.']
}

/// The component `..`.
pub open spec fn dot_dot() -> Seq<char> {
    seq!['.', '.']
}

pub open spec fn is_absolute(s: Seq<char>) -> bool {
    s.len() > 0 && s[0] == '/'
}

/// The components of `s`, which starts at a component of a path; `first` when
/// that is the path's first one.
pub open spec fn segs_from(s: Seq<char>, first: bool) -> Seq<Seq<char>>
    decreases s.len(),
    via segs_from_decreases
{
    let k = text::find(s, '/');
    let p = s.take(k);
    let here = if p.len() == 0 || (p == dot() && !first) {
        seq![]
    } else {
        seq![p]
    };
    if k < s.len() {
        here + segs_from(s.skip(k + 1), false)
    } else {
        here
    }
}

#[via_fn]
proof fn segs_from_decreases(s: Seq<char>, first: bool) {
    text::lemma_find(s, '/');
}

/// What the path `s` names.
pub open spec fn key(s: Seq<char>) -> PathKey {
    PathKey { root: is_absolute(s), segs: segs_from(s, true) }
}

/// The components with a slash between each two.
pub open spec fn join_segs(v: Seq<Seq<char>>) -> Seq<char>
    decreases v.len(),
{
    if v.len() == 0 {
        seq![]
    } else if v.len() == 1 {
        v[0]
    } else {
        v[0].push('/') + join_segs(v.drop_first())
    }
}

/// The plainest spelling of a path.
pub open spec fn render(k: PathKey) -> Seq<char> {
    if k.root {
        seq!['/'] + join_segs(k.segs)
    } else {
        join_segs(k.segs)
    }
}

/// A component as it comes out of a path: not empty and without a slash.
pub open spec fn is_seg(p: Seq<char>) -> bool {
    p.len() > 0 && !p.contains('/')
}

pub open spec fn all_segs(v: Seq<Seq<char>>) -> bool {
    forall|i: int| 0 <= i < v.len() ==> is_seg(#[trigger] v[i])
}

/// No component but a leading one is `.`.
pub open spec fn no_inner_dot(v: Seq<Seq<char>>) -> bool {
    forall|i: int| 0 < i < v.len() ==> #[trigger] v[i] != dot()
}

/// Components never hold a slash and are never empty, and only a leading one
/// is `.`.
pub proof fn lemma_segs(s: Seq<char>, first: bool)
    ensures
        all_segs(segs_from(s, first)),
        no_inner_dot(segs_from(s, first)),
        !first && segs_from(s, first).len() > 0 ==> segs_from(s, first)[0] != dot(),
        first && is_absolute(s) && segs_from(s, first).len() > 0 ==> segs_from(s, first)[0] != dot(),
    decreases s.len(),
{
    text::lemma_find(s, '/');
    let k = text::find(s, '/');
    let p = s.take(k);
    assert(!p.contains('/')) by {
        if p.contains('/') {
            let i = choose|i: int| 0 <= i < p.len() && p[i] == '/';
            assert(s[i] == '/');
        }
    }
    if k < s.len() {
        lemma_segs(s.skip(k + 1), false);
        let here = if p.len() == 0 || (p == dot() && !first) {
            seq![]
        } else {
            seq![p]
        };
        let rest = segs_from(s.skip(k + 1), false);
        let v = here + rest;
        assert forall|i: int| 0 <= i < v.len() implies is_seg(#[trigger] v[i]) by {
            if i >= here.len() {
                assert(v[i] == rest[i - here.len()]);
            }
        }
        assert forall|i: int| 0 < i < v.len() implies #[trigger] v[i] != dot() by {
            if i >= here.len() {
                assert(v[i] == rest[i - here.len()]);
            }
        }
    }
}

/// Taking a joined text apart again gives the components back.
pub proof fn lemma_segs_of_join(v: Seq<Seq<char>>, first: bool)
    requires
        all_segs(v),
        no_inner_dot(v),
        !first && v.len() > 0 ==> v[0] != dot(),
    ensures
        segs_from(join_segs(v), first) == v,
        v.len() > 0 ==> join_segs(v).len() > 0 && join_segs(v)[0] == v[0][0] && join_segs(v)[0] != '/',
    decreases v.len(),
{
    let s = join_segs(v);
    if v.len() == 0 {
        text::lemma_find_is(s, '/', 0);
        assert(s.take(0).len() == 0);
        assert(segs_from(s, first) =~= v);
    } else {
        let p = v[0];
        assert(is_seg(v[0]));
        assert(p[0] != '/') by {
            if p[0] == '/' {
                assert(p.contains('/'));
            }
        }
        assert forall|i: int| 0 <= i < p.len() implies p[i] != '/' by {
            if p[i] == '/' {
                assert(p.contains('/'));
            }
        }
        if v.len() == 1 {
            text::lemma_find_is(s, '/', s.len() as int);
            assert(s.take(s.len() as int) =~= p);
            assert(segs_from(s, first) =~= v);
        } else {
            let rest = v.drop_first();
            assert forall|i: int| 0 <= i < rest.len() implies is_seg(#[trigger] rest[i]) by {
                assert(rest[i] == v[i + 1]);
            }
            assert forall|i: int| 0 < i < rest.len() implies #[trigger] rest[i] != dot() by {
                assert(rest[i] == v[i + 1]);
            }
            assert(rest[0] == v[1]);
            lemma_segs_of_join(rest, false);
            assert(s.len() == p.len() + 1 + join_segs(rest).len());
            assert(s[p.len() as int] == '/');
            assert forall|i: int| 0 <= i < p.len() implies s[i] != '/' by {
                assert(s[i] == p[i]);
            }
            text::lemma_find_is(s, '/', p.len() as int);
            assert(s.take(p.len() as int) =~= p);
            assert(s.skip(p.len() as int + 1) =~= join_segs(rest));
            assert(segs_from(s, first) =~= v);
        }
    }
}

/// The plainest spelling of a path names that path.
pub proof fn lemma_key_of_render(k: PathKey)
    requires
        all_segs(k.segs),
        no_inner_dot(k.segs),
        k.root && k.segs.len() > 0 ==> k.segs[0] != dot(),
    ensures
        key(render(k)) == k,
{
    if k.root {
        lemma_segs_of_join(k.segs, false);
        let s = render(k);
        text::lemma_find_is(s, '/', 0);
        assert(s.take(0) =~= seq![]);
        assert(s.skip(1) =~= join_segs(k.segs));
        assert(segs_from(s, true) =~= k.segs);
    } else {
        lemma_segs_of_join(k.segs, true);
    }
}

/// A path taken apart: whether it starts at the root, and its components.
pub struct Parts {
    pub root: bool,
    pub segs: Vec<String>,
}

impl Parts {
    pub open spec fn key(&self) -> PathKey {
        PathKey { root: self.root, segs: text::texts(self.segs@) }
    }
}

/// True for the component `.`.
fn is_dot(s: &Vec<char>, from: usize, to: usize) -> (r: bool)
    requires
        from <= to <= s@.len(),
    ensures
        r == (s@.subrange(from as int, to as int) == dot()),
{
    let r = to - from == 1 && s[from] == '.';
    proof {
        let t = s@.subrange(from as int, to as int);
        assert(dot().len() == 1 && dot()[0] == '.');
        if r {
            assert(t =~= dot());
        } else if to - from == 1 {
            assert(t[0] == s@[from as int]);
            assert(t != dot());
        } else {
            assert(t.len() != dot().len());
        }
    }
    r
}

pub fn parts_of(s: &str) -> (r: Parts)
    ensures
        r.key() == key(s@),
{
    let cs = chars_of(s);
    let root = cs.len() > 0 && cs[0] == '/';
    let mut segs: Vec<String> = Vec::new();
    let mut i: usize = 0;
    let mut first: bool = true;
    let mut done: bool = false;
    assert(cs@.skip(0) =~= cs@);
    assert(text::texts(segs@) + segs_from(cs@, true) =~= segs_from(s@, true));
    while !done
        invariant
            i <= cs@.len(),
            cs@ == s@,
            !done ==> text::texts(segs@) + segs_from(cs@.skip(i as int), first) == segs_from(s@, true),
            done ==> text::texts(segs@) == segs_from(s@, true),
        decreases cs.len() - i + if done { 0int } else { 1int },
    {
        let ghost rest = cs@.skip(i as int);
        let ghost before = text::texts(segs@);
        let k = find_from(&cs, i, '/');
        let skip = k == i || (is_dot(&cs, i, k) && !first);
        let ghost p = rest.take(k - i);
        assert(p =~= cs@.subrange(i as int, k as int));
        if !skip {
            segs.push(string_of(&cs, i, k));
            assert(text::texts(segs@) =~= before.push(p));
        }
        if k < cs.len() {
            proof {
                assert(rest.skip(k - i + 1) =~= cs@.skip(k + 1));
                let here = if skip { seq![] } else { seq![p] };
                assert(text::texts(segs@) =~= before + here);
                assert(before + (here + segs_from(cs@.skip(k + 1), false)) =~= text::texts(segs@)
                    + segs_from(cs@.skip(k + 1), false));
            }
            i = k + 1;
            first = false;
        } else {
            proof {
                let here = if skip { seq![] } else { seq![p] };
                assert(before + here =~= text::texts(segs@));
            }
            done = true;
        }
    }
    Parts { root, segs }
}

/// True when the two lists hold the same texts.
pub fn same_texts(a: &Vec<String>, b: &Vec<String>) -> (r: bool)
    ensures
        r == (text::texts(a@) == text::texts(b@)),
{
    if a.len() != b.len() {
        assert(text::texts(a@).len() != text::texts(b@).len());
        return false;
    }
    let mut i: usize = 0;
    while i < a.len()
        invariant
            i <= a@.len(),
            a@.len() == b@.len(),
            forall|k: int| 0 <= k < i ==> a@[k]@ == b@[k]@,
        decreases a.len() - i,
    {
        if !same_text(a[i].as_str(), b[i].as_str()) {
            assert(text::texts(a@)[i as int] != text::texts(b@)[i as int]);
            return false;
        }
        i = i + 1;
    }
    assert(text::texts(a@) =~= text::texts(b@));
    true
}

/// True when the two paths name the same thing.
pub fn same_path(a: &str, b: &str) -> (r: bool)
    ensures
        r == (key(a@) == key(b@)),
{
    if same_text(a, b) {
        return true;
    }
    let x = parts_of(a);
    let y = parts_of(b);
    x.root == y.root && same_texts(&x.segs, &y.segs)
}

// --- parents and names ------------------------------------------------------

/// `s` without slashes and `.` components at its end.
pub open spec fn tidy(s: Seq<char>) -> Seq<char>
    decreases s.len(),
{
    if s.len() > 1 && (s.last() == '/' || (s.last() == '.' && s[s.len() - 2] == '/')) {
        tidy(s.drop_last())
    } else {
        s
    }
}

/// The path of the directory that holds `s`. The root and the empty path have
/// none.
pub open spec fn parent(s: Seq<char>) -> Option<Seq<char>> {
    let t = tidy(s);
    if t.len() == 0 || t == seq!['/'] {
        None
    } else {
        Some(tidy(t.take(text::past_last(t, '/'))))
    }
}

/// The last component of `s`, when it is a name rather than `.` or `..`.
pub open spec fn file_name(s: Seq<char>) -> Option<Seq<char>> {
    let t = tidy(s);
    let p = t.skip(text::past_last(t, '/'));
    if p.len() == 0 || p == dot() || p == dot_dot() {
        None
    } else {
        Some(p)
    }
}

/// What follows the last dot of the name, unless that dot starts it.
pub open spec fn extension(s: Seq<char>) -> Option<Seq<char>> {
    match file_name(s) {
        Some(n) => {
            let k = text::past_last(n, '.');
            if k > 1 {
                Some(n.skip(k))
            } else {
                None
            }
        },
        None => None,
    }
}

/// The components of two texts with a slash between them are those of the
/// first, then those of the second.
pub proof fn lemma_segs_append(a: Seq<char>, b: Seq<char>, first: bool)
    ensures
        segs_from(a.push('/') + b, first) == segs_from(a, first) + segs_from(b, false),
    decreases a.len(),
{
    let s = a.push('/') + b;
    text::lemma_find(a, '/');
    let k = text::find(a, '/');
    assert forall|i: int| 0 <= i < a.len() implies s[i] == a[i] by {}
    if k < a.len() {
        text::lemma_find_is(s, '/', k);
        let a2 = a.skip(k + 1);
        assert(s.take(k) =~= a.take(k));
        assert(s.skip(k + 1) =~= a2.push('/') + b);
        lemma_segs_append(a2, b, false);
        let p = a.take(k);
        let here = if p.len() == 0 || (p == dot() && !first) {
            seq![]
        } else {
            seq![p]
        };
        assert(here + (segs_from(a2, false) + segs_from(b, false)) =~= (here + segs_from(a2, false))
            + segs_from(b, false));
    } else {
        assert(s[a.len() as int] == '/');
        text::lemma_find_is(s, '/', a.len() as int);
        assert(s.take(a.len() as int) =~= a);
        assert(a.take(a.len() as int) =~= a);
        assert(s.skip(a.len() as int + 1) =~= b);
    }
}

/// A text without a slash is one component, unless it is empty or an inner `.`.
pub proof fn lemma_one_seg(p: Seq<char>, first: bool)
    requires
        !p.contains('/'),
    ensures
        segs_from(p, first) == if p.len() == 0 || (p == dot() && !first) {
            Seq::<Seq<char>>::empty()
        } else {
            seq![p]
        },
{
    text::lemma_find(p, '/');
    assert(p.take(p.len() as int) =~= p);
}

/// Tidying does not change what a path names.
pub proof fn lemma_tidy(s: Seq<char>)
    ensures
        key(tidy(s)) == key(s),
        tidy(s).len() <= s.len(),
        s.len() > 0 ==> tidy(s).len() > 0 && tidy(s)[0] == s[0],
        tidy(s).len() > 1 ==> tidy(s).last() != '/' && !(tidy(s).last() == '.' && tidy(
            s,
        )[tidy(s).len() - 2] == '/'),
    decreases s.len(),
{
    if s.len() > 1 && (s.last() == '/' || (s.last() == '.' && s[s.len() - 2] == '/')) {
        let u = s.drop_last();
        lemma_tidy(u);
        let empty = Seq::<char>::empty();
        assert(!empty.contains('/'));
        lemma_one_seg(empty, false);
        if s.last() == '/' {
            lemma_segs_append(u, empty, true);
            assert(u.push('/') + empty =~= s);
            assert(segs_from(u, true) + Seq::<Seq<char>>::empty() =~= segs_from(u, true));
        } else {
            let w = u.drop_last();
            assert(!dot().contains('/'));
            lemma_one_seg(dot(), false);
            lemma_segs_append(w, dot(), true);
            assert(w.push('/') + dot() =~= s);
            lemma_segs_append(w, empty, true);
            assert(w.push('/') + empty =~= u);
        }
    }
}

/// Going to the parent drops exactly the last component.
pub proof fn lemma_parent(s: Seq<char>)
    ensures
        parent(s) is None <==> key(s).segs.len() == 0,
        parent(s) matches Some(u) ==> key(u) == (PathKey {
            root: key(s).root,
            segs: key(s).segs.drop_last(),
        }),
{
    lemma_tidy(s);
    let t = tidy(s);
    let k = text::past_last(t, '/');
    text::lemma_past_last(t, '/');
    let empty = Seq::<char>::empty();
    assert(!empty.contains('/'));
    lemma_one_seg(empty, true);
    lemma_one_seg(empty, false);
    if t.len() == 0 {
        assert(t =~= empty);
    } else if t == seq!['/'] {
        lemma_segs_append(empty, empty, true);
        assert(empty.push('/') + empty =~= t);
    } else {
        let p = t.skip(k);
        assert(!p.contains('/')) by {
            if p.contains('/') {
                let i = choose|i: int| 0 <= i < p.len() && p[i] == '/';
                assert(t[k + i] == '/');
            }
        }
        lemma_tidy(t.take(k));
        if k == 0 {
            assert(p =~= t);
            lemma_one_seg(t, true);
            assert(t.take(0) =~= empty);
            assert(key(s).segs.drop_last() =~= seq![]);
        } else {
            let w = t.take(k - 1);
            assert(t.len() > 1) by {
                if t.len() == 1 {
                    assert(t =~= seq!['/']);
                }
            }
            assert(p.len() > 0) by {
                if k == t.len() {
                    assert(t.last() == '/');
                }
            }
            assert(p != dot()) by {
                if p == dot() {
                    assert(p[0] == t[k] && dot()[0] == '.');
                    assert(t.len() == k + 1);
                }
            }
            lemma_segs_append(w, p, true);
            assert(w.push('/') + p =~= t);
            lemma_one_seg(p, false);
            lemma_segs_append(w, empty, true);
            assert(w.push('/') + empty =~= t.take(k));
            assert(segs_from(t, true).drop_last() =~= segs_from(w, true));
            assert(segs_from(w, true) + Seq::<Seq<char>>::empty() =~= segs_from(w, true));
        }
    }
}

/// The length of `tidy` of the first `n` characters.
fn tidy_len(cs: &Vec<char>, n: usize) -> (r: usize)
    requires
        n <= cs@.len(),
    ensures
        r <= n,
        cs@.take(r as int) == tidy(cs@.take(n as int)),
{
    let mut i: usize = n;
    while i > 1 && (cs[i - 1] == '/' || (cs[i - 1] == '.' && cs[i - 2] == '/'))
        invariant
            i <= n <= cs@.len(),
            tidy(cs@.take(i as int)) == tidy(cs@.take(n as int)),
        decreases i,
    {
        assert(cs@.take(i as int).drop_last() =~= cs@.take(i - 1));
        i = i - 1;
    }
    i
}

pub fn parent_of(s: &str) -> (r: Option<String>)
    ensures
        match parent(s@) {
            Some(t) => r matches Some(x) && x@ == t,
            None => r is None,
        },
{
    let cs = chars_of(s);
    let n = tidy_len(&cs, cs.len());
    assert(cs@.take(cs@.len() as int) =~= s@);
    let ghost t = tidy(s@);
    if n == 0 || (n == 1 && cs[0] == '/') {
        assert(n == 1 ==> t =~= seq!['/']);
        return None;
    }
    assert(t.len() == n && t[0] == cs@[0]);
    assert(t != seq!['/']) by {
        if t == seq!['/'] {
            assert(t.len() == 1 && t[0] == '/');
        }
    }
    let mut k: usize = n;
    while k > 0 && cs[k - 1] != '/'
        invariant
            k <= n <= cs@.len(),
            forall|i: int| k <= i < n ==> cs@[i] != '/',
        decreases k,
    {
        k = k - 1;
    }
    let m = tidy_len(&cs, k);
    proof {
        text::lemma_past_last_is(t, '/', k as int);
        assert(t.take(k as int) =~= cs@.take(k as int));
        assert(cs@.subrange(0, m as int) =~= cs@.take(m as int));
    }
    Some(string_of(&cs, 0, m))
}

/// True when the characters `from..to` are empty, `.` or `..`.
fn is_no_name(cs: &Vec<char>, from: usize, to: usize) -> (r: bool)
    requires
        from <= to <= cs@.len(),
    ensures
        r == ({
            let p = cs@.subrange(from as int, to as int);
            p.len() == 0 || p == dot() || p == dot_dot()
        }),
{
    let ghost p = cs@.subrange(from as int, to as int);
    let n: usize = to - from;
    proof {
        assert(dot().len() == 1);
        assert(dot_dot().len() == 2 && dot_dot()[0] == '.' && dot_dot()[1] == '.');
        assert(p.len() == n);
    }
    if n == 0 {
        true
    } else if n == 1 {
        is_dot(cs, from, to)
    } else if n == 2 {
        let r = cs[from] == '.' && cs[from + 1] == '.';
        proof {
            assert(p[0] == cs@[from as int] && p[1] == cs@[from + 1]);
            if r {
                assert(p =~= dot_dot());
            }
        }
        r
    } else {
        false
    }
}

pub fn file_name_of(s: &str) -> (r: Option<String>)
    ensures
        match file_name(s@) {
            Some(t) => r matches Some(x) && x@ == t,
            None => r is None,
        },
{
    let cs = chars_of(s);
    let n = tidy_len(&cs, cs.len());
    assert(cs@.take(cs@.len() as int) =~= s@);
    let ghost t = tidy(s@);
    let mut k: usize = n;
    while k > 0 && cs[k - 1] != '/'
        invariant
            k <= n <= cs@.len(),
            forall|i: int| k <= i < n ==> cs@[i] != '/',
        decreases k,
    {
        k = k - 1;
    }
    let ghost p = t.skip(k as int);
    proof {
        text::lemma_past_last_is(t, '/', k as int);
        assert(p =~= cs@.subrange(k as int, n as int));
    }
    if is_no_name(&cs, k, n) {
        return None;
    }
    Some(string_of(&cs, k, n))
}

pub fn extension_of(s: &str) -> (r: Option<String>)
    ensures
        match extension(s@) {
            Some(t) => r matches Some(x) && x@ == t,
            None => r is None,
        },
{
    match file_name_of(s) {
        Some(name) => {
            let cs = chars_of(name.as_str());
            let k = crate::text::past_last_in(&cs, '.');
            if k > 1 {
                let r = string_of(&cs, k, cs.len());
                assert(r@ =~= cs@.skip(k as int));
                Some(r)
            } else {
                None
            }
        },
        None => None,
    }
}

// --- lexical operations -----------------------------------------------------

/// `p` as seen from `base`: an absolute path stands for itself.
pub open spec fn join(base: Seq<char>, p: Seq<char>) -> Seq<char> {
    if is_absolute(p) {
        p
    } else if base.len() == 0 || base.last() == '/' {
        base + p
    } else {
        base.push('/') + p
    }
}

pub fn starts_at_root(s: &str) -> (r: bool)
    ensures
        r == is_absolute(s@),
{
    s.unicode_len() > 0 && s.get_char(0) == '/'
}

pub fn join_path(base: &str, p: &str) -> (r: String)
    ensures
        r@ == join(base@, p@),
{
    if starts_at_root(p) {
        return p.to_owned();
    }
    let n: usize = base.unicode_len();
    let mut r = base.to_owned();
    if n > 0 && base.get_char(n - 1) != '/' {
        r.push('/');
    }
    r.append(p);
    r
}

/// The components that are left when `.` says nothing and `..` takes back the
/// name before it. With no name to take back, `..` stays at the start of a
/// relative path, and says nothing directly under the root.
pub open spec fn norm(v: Seq<Seq<char>>, root: bool) -> Seq<Seq<char>>
    decreases v.len(),
{
    if v.len() == 0 {
        seq![]
    } else {
        let a = norm(v.drop_last(), root);
        let c = v.last();
        if c == dot() {
            a
        } else if c == dot_dot() {
            if a.len() > 0 && a.last() != dot_dot() {
                a.drop_last()
            } else if root {
                a
            } else {
                a.push(c)
            }
        } else {
            a.push(c)
        }
    }
}

/// What a path names once `.` and `..` are resolved by their spelling alone.
pub open spec fn norm_key(k: PathKey) -> PathKey {
    PathKey { root: k.root, segs: norm(k.segs, k.root) }
}

/// The plainest spelling of a path with `.` and `..` resolved.
pub open spec fn normalize(s: Seq<char>) -> Seq<char> {
    render(norm_key(key(s)))
}

/// Components that resolving leaves alone: no `.`, and `..` only in front of a
/// relative path.
pub open spec fn is_norm(v: Seq<Seq<char>>, root: bool) -> bool {
    &&& all_segs(v)
    &&& forall|i: int| 0 <= i < v.len() ==> #[trigger] v[i] != dot()
    &&& root ==> forall|i: int| 0 <= i < v.len() ==> #[trigger] v[i] != dot_dot()
    &&& forall|i: int, j: int|
        0 <= i < j < v.len() && #[trigger] v[j] == dot_dot() ==> #[trigger] v[i] == dot_dot()
}

/// Resolving leaves only components that it would leave alone.
pub proof fn lemma_norm(v: Seq<Seq<char>>, root: bool)
    requires
        all_segs(v),
    ensures
        is_norm(norm(v, root), root),
    decreases v.len(),
{
    if v.len() > 0 {
        let w = v.drop_last();
        assert forall|i: int| 0 <= i < w.len() implies is_seg(#[trigger] w[i]) by {
            assert(w[i] == v[i]);
        }
        lemma_norm(w, root);
        assert(is_seg(v[v.len() - 1]));
        let a = norm(w, root);
        let r = norm(v, root);
        assert forall|i: int, j: int|
            0 <= i < j < r.len() && #[trigger] r[j] == dot_dot() implies #[trigger] r[i]
            == dot_dot() by {
            assert(i < a.len() && r[i] == a[i]);
            if j < a.len() {
                assert(r[j] == a[j]);
            } else if i < a.len() - 1 {
                assert(a[a.len() - 1] == dot_dot());
                assert(a[i] == dot_dot());
            }
        }
    }
}

/// Resolving such components changes nothing.
pub proof fn lemma_norm_id(v: Seq<Seq<char>>, root: bool)
    requires
        is_norm(v, root),
    ensures
        norm(v, root) == v,
    decreases v.len(),
{
    if v.len() > 0 {
        let w = v.drop_last();
        assert(is_norm(w, root)) by {
            assert forall|i: int| 0 <= i < w.len() implies is_seg(#[trigger] w[i]) && w[i] != dot()
                && (root ==> w[i] != dot_dot()) by {
                assert(w[i] == v[i]);
            }
            assert forall|i: int, j: int|
                0 <= i < j < w.len() && #[trigger] w[j] == dot_dot() implies #[trigger] w[i]
                == dot_dot() by {
                assert(w[i] == v[i] && w[j] == v[j]);
            }
        }
        lemma_norm_id(w, root);
        let last = v[v.len() - 1];
        assert(last != dot());
        if last == dot_dot() && w.len() > 0 {
            assert(v[w.len() - 1] == dot_dot());
        }
        assert(v.drop_last().push(v.last()) =~= v);
    }
}

/// A normalised path names what its components resolve to.
pub proof fn lemma_key_of_normalize(s: Seq<char>)
    ensures
        key(normalize(s)) == norm_key(key(s)),
        is_norm(key(normalize(s)).segs, key(s).root),
{
    lemma_segs(s, true);
    lemma_norm(key(s).segs, key(s).root);
    lemma_key_of_render(norm_key(key(s)));
}

/// Resolving a relative path does not change where it leads: gone along from any
/// directory, what is left of it ends where all of it does.
pub proof fn lemma_norm_same_place(base: Seq<Seq<char>>, v: Seq<Seq<char>>)
    requires
        all_segs(v),
    ensures
        norm(base + norm(v, false), true) == norm(base + v, true),
    decreases v.len(),
{
    if v.len() == 0 {
        assert(base + norm(v, false) =~= base + v);
    } else {
        let w = v.drop_last();
        let c = v.last();
        assert forall|i: int| 0 <= i < w.len() implies is_seg(#[trigger] w[i]) by {
            assert(w[i] == v[i]);
        }
        lemma_norm_same_place(base, w);
        lemma_norm(w, false);
        let a = norm(w, false);
        let r = norm(v, false);
        assert((base + v).drop_last() =~= base + w);
        assert((base + v).last() == c);
        if c == dot() {
        } else if c == dot_dot() && a.len() > 0 && a.last() != dot_dot() {
            assert((base + a).drop_last() =~= base + r);
            assert((base + a).last() == a[a.len() - 1]);
            let p = norm(base + r, true);
            assert(p.push(a.last()).drop_last() =~= p);
        } else {
            assert((base + r).drop_last() =~= base + a);
            assert((base + r).last() == c);
        }
    }
}

/// Normalising twice is normalising once.
pub proof fn lemma_normalize_idempotent(s: Seq<char>)
    ensures
        normalize(normalize(s)) == normalize(s),
{
    lemma_key_of_normalize(s);
    lemma_norm_id(norm(key(s).segs, key(s).root), key(s).root);
}

/// The components `from..` with a slash between each two.
pub fn join_texts(v: &Vec<String>, from: usize) -> (r: String)
    requires
        from <= v@.len(),
    ensures
        r@ == join_segs(text::texts(v@).skip(from as int)),
{
    let ghost t = text::texts(v@);
    let mut r = String::new();
    let mut i: usize = v.len();
    assert(t.skip(i as int) =~= seq![]);
    while i > from
        invariant
            from <= i <= v@.len(),
            t == text::texts(v@),
            r@ == join_segs(t.skip(i as int)),
        decreases i,
    {
        i = i - 1;
        let mut s = v[i].clone();
        if i + 1 < v.len() {
            s.push('/');
        }
        s.append(r.as_str());
        proof {
            assert(t.skip(i as int)[0] == v@[i as int]@);
            assert(t.skip(i as int).drop_first() =~= t.skip(i + 1));
            if i + 1 == v@.len() {
                assert(s@ =~= v@[i as int]@);
            }
        }
        r = s;
    }
    r
}

pub fn render_parts(p: &Parts) -> (r: String)
    ensures
        r@ == render(p.key()),
{
    let s = join_texts(&p.segs, 0);
    assert(text::texts(p.segs@).skip(0) =~= text::texts(p.segs@));
    if p.root {
        let mut r = String::new();
        r.push('/');
        r.append(s.as_str());
        assert(r@ =~= render(p.key()));
        r
    } else {
        s
    }
}

fn is_dot_dot(s: &str) -> (r: bool)
    ensures
        r == (s@ == dot_dot()),
{
    let cs = chars_of(s);
    let r = cs.len() == 2 && cs[0] == '.' && cs[1] == '.';
    assert(r ==> cs@ =~= dot_dot());
    r
}

/// `.` and `..` resolved in a path taken apart.
pub fn normal_parts(p: Parts) -> (r: Parts)
    ensures
        r.key() == norm_key(p.key()),
{
    let mut out: Vec<String> = Vec::new();
    let ghost t = text::texts(p.segs@);
    let mut i: usize = 0;
    assert(t.take(0) =~= seq![]);
    assert(text::texts(out@) =~= seq![]);
    while i < p.segs.len()
        invariant
            i <= p.segs@.len(),
            t == text::texts(p.segs@),
            text::texts(out@) == norm(t.take(i as int), p.root),
        decreases p.segs.len() - i,
    {
        proof {
            assert(t.take(i + 1).drop_last() =~= t.take(i as int));
            assert(t.take(i + 1).last() == p.segs@[i as int]@);
        }
        let ghost before = text::texts(out@);
        let cs = chars_of(p.segs[i].as_str());
        let one = cs.len() == 1 && cs[0] == '.';
        let two = is_dot_dot(p.segs[i].as_str());
        assert(one ==> cs@ =~= dot());
        let n: usize = out.len();
        let named = n > 0 && !is_dot_dot(out[n - 1].as_str());
        assert(n > 0 ==> before.last() == out@[n - 1]@);
        if one {
        } else if two && named {
            out.pop();
            assert(text::texts(out@) =~= before.drop_last());
        } else if two && p.root {
        } else {
            out.push(p.segs[i].clone());
            assert(text::texts(out@) =~= before.push(p.segs@[i as int]@));
        }
        i = i + 1;
    }
    assert(t.take(t.len() as int) =~= t);
    Parts { root: p.root, segs: out }
}

pub fn normalized(s: &str) -> (r: String)
    ensures
        r@ == normalize(s@),
{
    let p = normal_parts(parts_of(s));
    render_parts(&p)
}

/// The path of `s` below `base`, when its components go on from all of
/// `base`'s and are not the same.
pub open spec fn below(s: PathKey, base: PathKey) -> Option<Seq<char>> {
    let n = base.segs.len() as int;
    if s.root == base.root && n < s.segs.len() && s.segs.take(n) == base.segs {
        Some(join_segs(s.segs.skip(n)))
    } else {
        None
    }
}

pub fn below_base(s: &Parts, base: &Parts) -> (r: Option<String>)
    ensures
        match below(s.key(), base.key()) {
            Some(t) => r matches Some(x) && x@ == t,
            None => r is None,
        },
{
    let n: usize = base.segs.len();
    if s.root != base.root || n >= s.segs.len() {
        return None;
    }
    let ghost a = text::texts(s.segs@);
    let ghost b = text::texts(base.segs@);
    let mut i: usize = 0;
    while i < n
        invariant
            i <= n,
            n == base.segs@.len(),
            n < s.segs@.len(),
            a == text::texts(s.segs@),
            b == text::texts(base.segs@),
            forall|k: int| 0 <= k < i ==> a[k] == b[k],
        decreases n - i,
    {
        if !same_text(s.segs[i].as_str(), base.segs[i].as_str()) {
            assert(a.take(n as int)[i as int] != b[i as int]);
            return None;
        }
        i = i + 1;
    }
    assert(a.take(n as int) =~= b);
    Some(join_texts(&s.segs, n))
}

// --- plain paths ------------------------------------------------------------

/// True for the name of a thing in a directory: one component, other than `.`
/// and `..`.
pub open spec fn is_name(s: Seq<char>) -> bool {
    is_seg(s) && s != dot() && s != dot_dot()
}

/// What a path joined to another names.
pub proof fn lemma_join(base: Seq<char>, x: Seq<char>)
    requires
        base.len() > 0,
        !is_absolute(x),
    ensures
        key(join(base, x)) == (PathKey {
            root: is_absolute(base),
            segs: key(base).segs + segs_from(x, false),
        }),
{
    let j = join(base, x);
    let empty = Seq::<char>::empty();
    assert(!empty.contains('/'));
    lemma_one_seg(empty, false);
    if base.last() == '/' {
        let w = base.drop_last();
        lemma_segs_append(w, x, true);
        assert(w.push('/') + x =~= j);
        lemma_segs_append(w, empty, true);
        assert(w.push('/') + empty =~= base);
        assert(segs_from(w, true) + Seq::<Seq<char>>::empty() =~= segs_from(w, true));
    } else {
        lemma_segs_append(base, x, true);
    }
    assert(j[0] == base[0]);
}

/// A name joined to a directory names something there: the directory is its
/// parent, and the name its file name.
pub proof fn lemma_join_name(dir: Seq<char>, name: Seq<char>)
    requires
        is_name(name),
    ensures
        key(join(dir, name)) == (PathKey {
            root: key(dir).root,
            segs: key(dir).segs.push(name),
        }),
        parent(join(dir, name)) matches Some(d) && key(d) == key(dir),
        file_name(join(dir, name)) == Some(name),
{
    let j = join(dir, name);
    assert(!is_absolute(name)) by {
        if is_absolute(name) {
            assert(name[0] == '/');
        }
    }
    lemma_one_seg(name, false);
    if dir.len() == 0 {
        let empty = Seq::<char>::empty();
        assert(dir =~= empty);
        assert(!empty.contains('/'));
        lemma_one_seg(empty, true);
        lemma_one_seg(name, true);
        assert(j =~= name);
        assert(key(dir).segs.push(name) =~= seq![name]);
    } else {
        lemma_join(dir, name);
        assert(key(dir).segs.push(name) =~= key(dir).segs + seq![name]);
    }
    lemma_parent(j);
    lemma_file_name(j);
    assert(key(dir).segs.push(name).drop_last() =~= key(dir).segs);
}

/// The name of a path is its last component, unless that is `.` or `..`.
pub proof fn lemma_file_name(s: Seq<char>)
    ensures
        file_name(s) == ({
            let v = key(s).segs;
            if v.len() > 0 && v.last() != dot() && v.last() != dot_dot() {
                Some(v.last())
            } else {
                None
            }
        }),
{
    lemma_tidy(s);
    let t = tidy(s);
    let k = text::past_last(t, '/');
    text::lemma_past_last(t, '/');
    let empty = Seq::<char>::empty();
    assert(!empty.contains('/'));
    lemma_one_seg(empty, true);
    lemma_one_seg(empty, false);
    let p = t.skip(k);
    assert(!p.contains('/')) by {
        if p.contains('/') {
            let i = choose|i: int| 0 <= i < p.len() && p[i] == '/';
            assert(t[k + i] == '/');
        }
    }
    if k == 0 {
        assert(p =~= t);
        lemma_one_seg(t, true);
    } else {
        let w = t.take(k - 1);
        lemma_segs_append(w, p, true);
        assert(w.push('/') + p =~= t);
        lemma_one_seg(p, false);
        if p.len() == 0 {
            // Only the root ends with a slash.
            assert(t.len() == 1) by {
                if t.len() > 1 {
                    assert(t.last() == '/');
                }
            }
            assert(w =~= empty);
        } else {
            assert(p != dot()) by {
                if p == dot() {
                    assert(p[0] == t[k] && dot()[0] == '.');
                    assert(t.len() == k + 1);
                }
            }
            assert(segs_from(t, true).last() == p);
        }
    }
}

/// The extension of a path is that of its last component.
pub proof fn lemma_extension(s: Seq<char>, v: Seq<Seq<char>>)
    requires
        key(s).segs.len() > 0,
        v.len() > 0,
        key(s).segs.last() == v.last(),
    ensures
        extension(s) == extension(v.last()),
{
    lemma_segs(s, true);
    let n = v.last();
    let w = key(s).segs;
    assert(is_seg(w[w.len() - 1]));
    lemma_file_name(s);
    lemma_one_seg(n, true);
    lemma_file_name(n);
}

/// Joining two lists of components with a slash between is joining them all.
pub proof fn lemma_join_append(a: Seq<Seq<char>>, b: Seq<Seq<char>>)
    requires
        a.len() > 0,
        b.len() > 0,
    ensures
        join_segs(a).push('/') + join_segs(b) == join_segs(a + b),
    decreases a.len(),
{
    if a.len() == 1 {
        assert((a + b).drop_first() =~= b);
        assert(join_segs(a + b) =~= a[0].push('/') + join_segs(b));
    } else {
        lemma_join_append(a.drop_first(), b);
        assert((a + b).drop_first() =~= a.drop_first() + b);
        assert(join_segs(a).push('/') + join_segs(b) =~= a[0].push('/') + (join_segs(
            a.drop_first(),
        ).push('/') + join_segs(b)));
    }
}

/// The last character of joined components is that of the last one.
pub proof fn lemma_join_last(v: Seq<Seq<char>>)
    requires
        v.len() > 0,
        all_segs(v),
    ensures
        join_segs(v).len() > 0,
        join_segs(v).last() == v.last().last(),
        v.len() > 1 ==> join_segs(v) == join_segs(v.drop_last()).push('/') + v.last(),
{
    let n = v.len() - 1;
    assert(is_seg(v[n]));
    if n > 0 {
        let a = v.drop_last();
        let b = seq![v.last()];
        lemma_join_append(a, b);
        assert(a + b =~= v);
    }
}

/// True for a path in its plainest spelling, from the root, with nothing to
/// resolve.
pub open spec fn is_plain(s: Seq<char>) -> bool {
    key(s).root && is_norm(key(s).segs, true) && s == render(key(s))
}

/// A normalised absolute path is plain.
pub proof fn lemma_normalize_plain(s: Seq<char>)
    requires
        is_absolute(s),
    ensures
        is_plain(normalize(s)),
{
    lemma_key_of_normalize(s);
}

/// The parent of a plain path is plain, and the root has itself above it.
pub proof fn lemma_plain_parent(s: Seq<char>)
    requires
        is_plain(s),
    ensures
        key(s).segs.len() == 0 ==> parent(s) is None,
        parent(s) matches Some(d) ==> is_plain(d),
{
    let k = key(s);
    let v = k.segs;
    lemma_parent(s);
    if v.len() > 0 {
        let last = v.last();
        assert(is_seg(v[v.len() - 1]));
        assert(v[v.len() - 1] != dot());
        lemma_join_last(v);
        let init = v.drop_last();
        let front = if init.len() > 0 {
            seq!['/'] + join_segs(init).push('/')
        } else {
            seq!['/']
        };
        assert(s == front + last) by {
            if init.len() > 0 {
                assert(s =~= front + last);
            } else {
                assert(join_segs(v) == v[0]);
                assert(s =~= front + last);
            }
        }
        // Nothing to tidy at the end.
        assert(s.last() == last.last());
        assert(s.last() != '/') by {
            if s.last() == '/' {
                assert(last.contains(last[last.len() - 1]));
            }
        }
        assert(!(s.last() == '.' && s[s.len() - 2] == '/')) by {
            if s.last() == '.' && s[s.len() - 2] == '/' {
                if last.len() == 1 {
                    assert(last =~= dot());
                } else {
                    assert(s[s.len() - 2] == last[last.len() - 2]);
                    assert(last.contains(last[last.len() - 2]));
                }
            }
        }
        assert(tidy(s) == s);
        let n = front.len() as int;
        assert(s[n - 1] == '/');
        assert forall|i: int| n <= i < s.len() implies s[i] != '/' by {
            assert(s[i] == last[i - n]);
            assert(last.contains(last[i - n]));
        }
        text::lemma_past_last_is(s, '/', n);
        assert(s.take(n) =~= front);
        let up = PathKey { root: true, segs: init };
        assert forall|i: int| 0 <= i < init.len() implies is_seg(#[trigger] init[i]) && init[i]
            != dot() && init[i] != dot_dot() by {
            assert(init[i] == v[i]);
        }
        assert(is_norm(init, true));
        lemma_key_of_render(up);
        let d = render(up);
        assert(tidy(front) == d) by {
            if init.len() > 0 {
                assert(front.drop_last() =~= d);
                lemma_join_last(init);
                let l2 = init.last();
                assert(is_seg(init[init.len() - 1]));
                assert(init[init.len() - 1] != dot());
                assert(d.last() == l2.last());
                assert(l2.contains(l2[l2.len() - 1]));
                assert(d.len() > 1);
                if d.last() == '.' && d[d.len() - 2] == '/' {
                    if l2.len() == 1 {
                        assert(l2 =~= dot());
                    } else {
                        let j = join_segs(init);
                        if init.len() > 1 {
                            assert(j == join_segs(init.drop_last()).push('/') + l2);
                        }
                        assert(d[d.len() - 2] == l2[l2.len() - 2]);
                        assert(l2.contains(l2[l2.len() - 2]));
                    }
                }
                assert(tidy(d) == d);
            } else {
                assert(d =~= front);
            }
        }
        assert(parent(s) == Some(d)) by {
            assert(s != seq!['/']) by {
                if s == seq!['/'] {
                    assert(s.last() == '/');
                }
            }
        }
    }
}

} // verus!
