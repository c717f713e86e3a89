//! Stable sorting by key. A key is a row of numbers, compared from the front,
//! so texts (by their characters) and numbers are sorted alike; items with
//! equal keys keep their order.

use vstd::prelude::*;

verus! {

/// True when `a` comes before `b`, compared from the front.
pub open spec fn key_less(a: Seq<int>, b: Seq<int>) -> bool
    decreases a.len(),
{
    if b.len() == 0 {
        false
    } else if a.len() == 0 {
        true
    } else if a[0] != b[0] {
        a[0] < b[0]
    } else {
        key_less(a.drop_first(), b.drop_first())
    }
}

/// True when item `i` comes before item `j`: by key, then by position.
pub open spec fn before(keys: Seq<Seq<int>>, i: int, j: int) -> bool {
    key_less(keys[i], keys[j]) || (keys[i] == keys[j] && i < j)
}

/// True when `p` lists every item once, each before those that follow it.
pub open spec fn is_order(keys: Seq<Seq<int>>, p: Seq<int>) -> bool {
    &&& p.len() == keys.len()
    &&& forall|k: int| 0 <= k < p.len() ==> 0 <= #[trigger] p[k] < keys.len()
    &&& forall|a: int, b: int| 0 <= a < b < p.len() ==> before(keys, #[trigger] p[a], #[trigger] p[b])
    &&& forall|i: int| 0 <= i < keys.len() ==> #[trigger] p.contains(i)
}

/// The items in order of their keys. There is exactly one such listing.
pub open spec fn order(keys: Seq<Seq<int>>) -> Seq<int> {
    choose|p: Seq<int>| is_order(keys, p)
}

/// `s` with its items listed in the order `p`.
pub open spec fn reorder<T>(s: Seq<T>, p: Seq<int>) -> Seq<T> {
    p.map_values(|i: int| s[i])
}

pub proof fn lemma_key_less_irreflexive(a: Seq<int>)
    ensures
        !key_less(a, a),
    decreases a.len(),
{
    if a.len() > 0 {
        lemma_key_less_irreflexive(a.drop_first());
    }
}

pub proof fn lemma_key_less_transitive(a: Seq<int>, b: Seq<int>, c: Seq<int>)
    requires
        key_less(a, b),
        key_less(b, c),
    ensures
        key_less(a, c),
    decreases a.len(),
{
    if a.len() > 0 && a[0] == b[0] && b[0] == c[0] {
        lemma_key_less_transitive(a.drop_first(), b.drop_first(), c.drop_first());
    }
}

proof fn lemma_key_less_total(a: Seq<int>, b: Seq<int>)
    ensures
        key_less(a, b) || key_less(b, a) || a == b,
    decreases a.len(),
{
    if a.len() == 0 && b.len() == 0 {
        assert(a =~= b);
    } else if a.len() > 0 && b.len() > 0 && a[0] == b[0] {
        lemma_key_less_total(a.drop_first(), b.drop_first());
        if a.drop_first() == b.drop_first() {
            assert(a =~= seq![a[0]] + a.drop_first());
            assert(b =~= seq![b[0]] + b.drop_first());
        }
    }
}

/// `before` is a strict total order.
pub proof fn lemma_before(keys: Seq<Seq<int>>, i: int, j: int, k: int)
    ensures
        !before(keys, i, i),
        before(keys, i, j) && before(keys, j, k) ==> before(keys, i, k),
        before(keys, i, j) || before(keys, j, i) || i == j,
        !(before(keys, i, j) && before(keys, j, i)),
{
    lemma_key_less_irreflexive(keys[i]);
    lemma_key_less_irreflexive(keys[j]);
    lemma_key_less_total(keys[i], keys[j]);
    if key_less(keys[i], keys[j]) && key_less(keys[j], keys[k]) {
        lemma_key_less_transitive(keys[i], keys[j], keys[k]);
    }
    if key_less(keys[i], keys[j]) && key_less(keys[j], keys[i]) {
        lemma_key_less_transitive(keys[i], keys[j], keys[i]);
    }
}

/// Two listings in order agree at every place.
proof fn lemma_order_unique_at(keys: Seq<Seq<int>>, p: Seq<int>, q: Seq<int>, k: int)
    requires
        is_order(keys, p),
        is_order(keys, q),
        0 <= k < keys.len(),
    ensures
        p[k] == q[k],
    decreases k,
{
    assert forall|j: int| 0 <= j < k implies p[j] == q[j] by {
        lemma_order_unique_at(keys, p, q, j);
    }
    if p[k] != q[k] {
        lemma_before(keys, p[k], q[k], p[k]);
        assert(q.contains(p[k]));
        let j = choose|j: int| 0 <= j < q.len() && q[j] == p[k];
        assert(j > k) by {
            if j < k {
                assert(p[j] == q[j]);
                lemma_before(keys, p[j], p[k], p[j]);
                assert(before(keys, p[j], p[k]));
            }
        }
        assert(before(keys, q[k], q[j]));
        assert(p.contains(q[k]));
        let i = choose|i: int| 0 <= i < p.len() && p[i] == q[k];
        assert(i > k) by {
            if i < k {
                assert(p[i] == q[i]);
                lemma_before(keys, q[i], q[k], q[i]);
                assert(before(keys, q[i], q[k]));
            }
        }
        assert(before(keys, p[k], p[i]));
    }
}

/// There is only one listing in order.
pub proof fn lemma_order_is(keys: Seq<Seq<int>>, p: Seq<int>)
    requires
        is_order(keys, p),
    ensures
        order(keys) == p,
{
    let q = order(keys);
    assert(is_order(keys, q));
    assert forall|k: int| 0 <= k < p.len() implies p[k] == q[k] by {
        lemma_order_unique_at(keys, p, q, k);
    }
    assert(p =~= q);
}

/// Where the last item goes among the others, listed in `p`: in front of the
/// first one that it comes before, from place `k` on.
spec fn slot(keys: Seq<Seq<int>>, p: Seq<int>, n: int, k: int) -> int
    decreases p.len() - k,
{
    if k >= p.len() || before(keys, n, p[k]) {
        k
    } else {
        slot(keys, p, n, k + 1)
    }
}

proof fn lemma_slot(keys: Seq<Seq<int>>, p: Seq<int>, n: int, k: int)
    requires
        0 <= k <= p.len(),
    ensures
        k <= slot(keys, p, n, k) <= p.len(),
        slot(keys, p, n, k) < p.len() ==> before(keys, n, p[slot(keys, p, n, k)]),
        forall|j: int| k <= j < slot(keys, p, n, k) ==> !before(keys, n, #[trigger] p[j]),
    decreases p.len() - k,
{
    if k < p.len() && !before(keys, n, p[k]) {
        lemma_slot(keys, p, n, k + 1);
    }
}

/// Any items can be listed in order.
pub proof fn lemma_order_exists(keys: Seq<Seq<int>>)
    ensures
        is_order(keys, order(keys)),
    decreases keys.len(),
{
    if keys.len() == 0 {
        assert(is_order(keys, seq![]));
    } else {
        let n = keys.len() - 1;
        let ks = keys.drop_last();
        lemma_order_exists(ks);
        let p = order(ks);
        assert forall|i: int, j: int| 0 <= i < n && 0 <= j < n implies before(ks, i, j) == before(
            keys,
            i,
            j,
        ) by {}
        lemma_slot(keys, p, n, 0);
        let q = slot(keys, p, n, 0);
        let r = p.insert(q, n);
        assert forall|k: int| 0 <= k < r.len() implies 0 <= #[trigger] r[k] < keys.len() by {
            if k < q {
                assert(r[k] == p[k]);
            } else if k > q {
                assert(r[k] == p[k - 1]);
            }
        }
        assert forall|a: int, b: int| 0 <= a < b < r.len() implies before(
            keys,
            #[trigger] r[a],
            #[trigger] r[b],
        ) by {
            let a2 = if a <= q { a } else { a - 1 };
            let b2 = if b <= q { b } else { b - 1 };
            if a == q {
                assert(r[b] == p[b2]);
                if q < b2 {
                    assert(before(ks, p[q], p[b2]));
                    lemma_before(keys, n, p[q], p[b2]);
                }
            } else if b == q {
                assert(r[a] == p[a2]);
                assert(!before(keys, n, p[a2]));
                lemma_before(keys, n, p[a2], n);
            } else {
                assert(r[a] == p[a2] && r[b] == p[b2]);
                assert(before(ks, p[a2], p[b2]));
            }
        }
        assert forall|i: int| 0 <= i < keys.len() implies #[trigger] r.contains(i) by {
            if i == n {
                assert(r[q] == i);
            } else {
                assert(p.contains(i));
                let k = choose|k: int| 0 <= k < p.len() && p[k] == i;
                if k < q {
                    assert(r[k] == i);
                } else {
                    assert(r[k + 1] == i);
                }
            }
        }
        assert(is_order(keys, r));
    }
}

/// Listing items in order keeps each of them once.
pub proof fn lemma_reorder<T>(s: Seq<T>, keys: Seq<Seq<int>>)
    requires
        s.len() == keys.len(),
    ensures
        reorder(s, order(keys)).len() == s.len(),
        forall|x: T| #[trigger] reorder(s, order(keys)).contains(x) == s.contains(x),
        forall|i: int, j: int|
            0 <= i < j < s.len() ==> #[trigger] order(keys)[i] != #[trigger] order(keys)[j],
{
    lemma_order_exists(keys);
    let p = order(keys);
    let t = reorder(s, p);
    assert forall|x: T| #[trigger] t.contains(x) == s.contains(x) by {
        if t.contains(x) {
            let k = choose|k: int| 0 <= k < t.len() && t[k] == x;
            assert(s[p[k]] == x);
        }
        if s.contains(x) {
            let i = choose|i: int| 0 <= i < s.len() && s[i] == x;
            assert(p.contains(i));
            let k = choose|k: int| 0 <= k < p.len() && p[k] == i;
            assert(t[k] == x);
        }
    }
    assert forall|i: int, j: int| 0 <= i < j < s.len() implies #[trigger] p[i] != #[trigger] p[j] by {
        assert(before(keys, p[i], p[j]));
        lemma_before(keys, p[i], p[i], p[i]);
    }
}

/// Items that can be compared by their positions.
pub trait Ranked {
    /// The key of each item.
    spec fn keys(&self) -> Seq<Seq<int>>;

    fn count(&self) -> (r: usize)
        ensures
            r == self.keys().len(),
    ;

    fn is_before(&self, i: usize, j: usize) -> (r: bool)
        requires
            i < self.keys().len(),
            j < self.keys().len(),
        ensures
            r == before(self.keys(), i as int, j as int),
    ;
}

/// Positions as mathematical numbers.
pub open spec fn ints(v: Seq<usize>) -> Seq<int> {
    v.map_values(|i: usize| i as int)
}

/// True when `p` lists every position in `lo..hi`, in order.
spec fn is_order_of(keys: Seq<Seq<int>>, p: Seq<usize>, lo: int, hi: int) -> bool {
    &&& p.len() == hi - lo
    &&& forall|k: int| 0 <= k < p.len() ==> lo <= #[trigger] p[k] < hi
    &&& forall|a: int, b: int|
        0 <= a < b < p.len() ==> before(keys, #[trigger] p[a] as int, #[trigger] p[b] as int)
    &&& forall|i: usize| lo <= i < hi ==> #[trigger] p.contains(i)
}

fn merge<R: Ranked>(
    r: &R,
    a: &Vec<usize>,
    b: &Vec<usize>,
    Ghost(lo): Ghost<int>,
    Ghost(mid): Ghost<int>,
    Ghost(hi): Ghost<int>,
) -> (out: Vec<usize>)
    requires
        0 <= lo <= mid <= hi <= r.keys().len(),
        is_order_of(r.keys(), a@, lo, mid),
        is_order_of(r.keys(), b@, mid, hi),
    ensures
        is_order_of(r.keys(), out@, lo, hi),
{
    let ghost keys = r.keys();
    let mut out: Vec<usize> = Vec::new();
    let mut i: usize = 0;
    let mut j: usize = 0;
    while i < a.len() || j < b.len()
        invariant
            keys == r.keys(),
            0 <= lo <= mid <= hi <= keys.len(),
            is_order_of(keys, a@, lo, mid),
            is_order_of(keys, b@, mid, hi),
            i <= a@.len(),
            j <= b@.len(),
            out@.len() == i + j,
            forall|k: int| 0 <= k < out@.len() ==> lo <= #[trigger] out@[k] < hi,
            forall|x: int, y: int|
                0 <= x < y < out@.len() ==> before(
                    keys,
                    #[trigger] out@[x] as int,
                    #[trigger] out@[y] as int,
                ),
            forall|k: int, y: int|
                0 <= k < out@.len() && i <= y < a@.len() ==> before(
                    keys,
                    #[trigger] out@[k] as int,
                    #[trigger] a@[y] as int,
                ),
            forall|k: int, y: int|
                0 <= k < out@.len() && j <= y < b@.len() ==> before(
                    keys,
                    #[trigger] out@[k] as int,
                    #[trigger] b@[y] as int,
                ),
            forall|x: int| 0 <= x < i ==> out@.contains(#[trigger] a@[x]),
            forall|x: int| 0 <= x < j ==> out@.contains(#[trigger] b@[x]),
        decreases a.len() - i + b.len() - j,
    {
        let from_a = if i == a.len() {
            false
        } else if j == b.len() {
            true
        } else {
            r.is_before(a[i], b[j])
        };
        let ghost prev = out@;
        if from_a {
            let x = a[i];
            out.push(x);
            proof {
                assert(out@[prev.len() as int] == x);
                assert forall|y: int| 0 <= y < i + 1 implies out@.contains(#[trigger] a@[y]) by {
                    if y < i {
                        assert(prev.contains(a@[y]));
                        let k = choose|k: int| 0 <= k < prev.len() && prev[k] == a@[y];
                        assert(out@[k] == a@[y]);
                    }
                }
                assert forall|y: int| 0 <= y < j implies out@.contains(#[trigger] b@[y]) by {
                    assert(prev.contains(b@[y]));
                    let k = choose|k: int| 0 <= k < prev.len() && prev[k] == b@[y];
                    assert(out@[k] == b@[y]);
                }
                assert forall|y: int| j <= y < b@.len() implies before(
                    keys,
                    x as int,
                    #[trigger] b@[y] as int,
                ) by {
                    assert(before(keys, x as int, b@[j as int] as int));
                    if y > j {
                        lemma_before(keys, x as int, b@[j as int] as int, b@[y] as int);
                    }
                }
            }
            i = i + 1;
        } else {
            let x = b[j];
            out.push(x);
            proof {
                assert(out@[prev.len() as int] == x);
                assert forall|y: int| 0 <= y < j + 1 implies out@.contains(#[trigger] b@[y]) by {
                    if y < j {
                        assert(prev.contains(b@[y]));
                        let k = choose|k: int| 0 <= k < prev.len() && prev[k] == b@[y];
                        assert(out@[k] == b@[y]);
                    }
                }
                assert forall|y: int| 0 <= y < i implies out@.contains(#[trigger] a@[y]) by {
                    assert(prev.contains(a@[y]));
                    let k = choose|k: int| 0 <= k < prev.len() && prev[k] == a@[y];
                    assert(out@[k] == a@[y]);
                }
                assert forall|y: int| i <= y < a@.len() implies before(
                    keys,
                    x as int,
                    #[trigger] a@[y] as int,
                ) by {
                    lemma_before(keys, a@[i as int] as int, x as int, x as int);
                    assert(a@[i as int] != x);
                    assert(before(keys, x as int, a@[i as int] as int));
                    if y > i {
                        lemma_before(keys, x as int, a@[i as int] as int, a@[y] as int);
                    }
                }
            }
            j = j + 1;
        }
    }
    proof {
        assert forall|n: usize| lo <= n < hi implies #[trigger] out@.contains(n) by {
            if n < mid {
                assert(a@.contains(n));
                let k = choose|k: int| 0 <= k < a@.len() && a@[k] == n;
                assert(out@.contains(a@[k]));
            } else {
                assert(b@.contains(n));
                let k = choose|k: int| 0 <= k < b@.len() && b@[k] == n;
                assert(out@.contains(b@[k]));
            }
        }
    }
    out
}

fn sort_range<R: Ranked>(r: &R, lo: usize, hi: usize) -> (out: Vec<usize>)
    requires
        lo <= hi <= r.keys().len(),
    ensures
        is_order_of(r.keys(), out@, lo as int, hi as int),
    decreases hi - lo,
{
    let mut out: Vec<usize> = Vec::new();
    if hi == lo {
        out
    } else if hi - lo == 1 {
        out.push(lo);
        assert forall|i: usize| lo <= i < hi implies #[trigger] out@.contains(i) by {
            assert(out@[0] == i);
        }
        out
    } else {
        let mid: usize = lo + (hi - lo) / 2;
        let a = sort_range(r, lo, mid);
        let b = sort_range(r, mid, hi);
        merge(r, &a, &b, Ghost(lo as int), Ghost(mid as int), Ghost(hi as int))
    }
}

/// The positions of the items in order of their keys.
pub fn sort_positions<R: Ranked>(r: &R) -> (out: Vec<usize>)
    ensures
        ints(out@) == order(r.keys()),
        forall|k: int| 0 <= k < out@.len() ==> #[trigger] out@[k] < r.keys().len(),
        out@.len() == r.keys().len(),
        is_order(r.keys(), order(r.keys())),
{
    let n = r.count();
    let out = sort_range(r, 0, n);
    proof {
        let p = ints(out@);
        let keys = r.keys();
        assert forall|i: int| 0 <= i < keys.len() implies #[trigger] p.contains(i) by {
            assert(out@.contains(i as usize));
            let k = choose|k: int| 0 <= k < out@.len() && out@[k] == i as usize;
            assert(p[k] == i);
        }
        assert(is_order(keys, p)) by {
            assert forall|a: int, b: int| 0 <= a < b < p.len() implies before(
                keys,
                #[trigger] p[a],
                #[trigger] p[b],
            ) by {
                assert(before(keys, out@[a] as int, out@[b] as int));
            }
        }
        lemma_order_is(keys, p);
    }
    out
}

// --- sorting by text --------------------------------------------------------

/// The key of a text: its characters' code points.
pub open spec fn text_key(s: Seq<char>) -> Seq<int> {
    s.map_values(|c: char| c as int)
}

/// The keys of a list of texts.
pub open spec fn text_keys(v: Seq<Seq<char>>) -> Seq<Seq<int>> {
    v.map_values(|s: Seq<char>| text_key(s))
}

/// Texts to sort by.
pub struct ByText {
    pub rows: Vec<Vec<char>>,
}

impl ByText {
    pub open spec fn texts(&self) -> Seq<Seq<char>> {
        self.rows@.map_values(|r: Vec<char>| r@)
    }
}

fn text_before(a: &Vec<char>, b: &Vec<char>) -> (r: (bool, bool))
    ensures
        r.0 == key_less(text_key(a@), text_key(b@)),
        r.1 == (text_key(a@) == text_key(b@)),
{
    let ghost ka = text_key(a@);
    let ghost kb = text_key(b@);
    let mut i: usize = 0;
    assert(ka.skip(0) =~= ka);
    assert(kb.skip(0) =~= kb);
    while i < a.len() && i < b.len() && a[i] == b[i]
        invariant
            i <= a@.len(),
            i <= b@.len(),
            ka == text_key(a@),
            kb == text_key(b@),
            forall|k: int| 0 <= k < i ==> ka[k] == kb[k],
            key_less(ka, kb) == key_less(ka.skip(i as int), kb.skip(i as int)),
        decreases a.len() - i,
    {
        proof {
            let x = ka.skip(i as int);
            let y = kb.skip(i as int);
            assert(x.drop_first() =~= ka.skip(i + 1));
            assert(y.drop_first() =~= kb.skip(i + 1));
            assert(x[0] == a@[i as int] as int && y[0] == b@[i as int] as int);
        }
        i = i + 1;
    }
    let ghost x = ka.skip(i as int);
    let ghost y = kb.skip(i as int);
    if i == b.len() {
        proof {
            if i == a@.len() {
                assert(ka =~= kb);
            } else {
                assert(ka.len() != kb.len());
            }
        }
        (false, i == a.len())
    } else if i == a.len() {
        assert(ka.len() != kb.len());
        (true, false)
    } else {
        assert(x[0] == a@[i as int] as int && y[0] == b@[i as int] as int);
        assert(ka[i as int] != kb[i as int]);
        (code(a[i]) < code(b[i]), false)
    }
}

fn code(c: char) -> (r: u32)
    ensures
        r == c as int,
{
    c as u32
}

impl Ranked for ByText {
    open spec fn keys(&self) -> Seq<Seq<int>> {
        text_keys(self.texts())
    }

    fn count(&self) -> (r: usize) {
        self.rows.len()
    }

    fn is_before(&self, i: usize, j: usize) -> (r: bool) {
        let (less, same) = text_before(&self.rows[i], &self.rows[j]);
        less || (same && i < j)
    }
}

// --- sorting by number ------------------------------------------------------

/// The keys of a list of numbers.
pub open spec fn number_keys(v: Seq<int>) -> Seq<Seq<int>> {
    v.map_values(|n: int| seq![n])
}

/// Numbers to sort by, the least first or the greatest first.
pub struct ByNumber {
    pub rows: Vec<u128>,
    pub greatest_first: bool,
}

impl ByNumber {
    pub open spec fn numbers(&self) -> Seq<int> {
        self.rows@.map_values(|n: u128| if self.greatest_first { -(n as int) } else { n as int })
    }
}

impl Ranked for ByNumber {
    open spec fn keys(&self) -> Seq<Seq<int>> {
        number_keys(self.numbers())
    }

    fn count(&self) -> (r: usize) {
        self.rows.len()
    }

    fn is_before(&self, i: usize, j: usize) -> (r: bool) {
        let a: u128 = self.rows[i];
        let b: u128 = self.rows[j];
        proof {
            let x = self.keys()[i as int];
            let y = self.keys()[j as int];
            reveal_with_fuel(key_less, 2);
            assert(x.len() == 1 && y.len() == 1);
            assert(x.drop_first() =~= seq![]);
            assert(x[0] == self.numbers()[i as int] && y[0] == self.numbers()[j as int]);
            if x[0] == y[0] {
                assert(x =~= y);
            }
        }
        if a == b {
            i < j
        } else if self.greatest_first {
            a > b
        } else {
            a < b
        }
    }
}

} // verus!
