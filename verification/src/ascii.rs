//! Decimal numbers and ASCII letter case.

use crate::text::chars_of;
use vstd::prelude::*;
use vstd::string::*;

verus! {

// --- decimal numbers --------------------------------------------------------

/// The character of the digit `d`.
pub open spec fn digit(d: int) -> char
    recommends
        0 <= d <= 9,
{
    (48 + d) as char
}

/// `n` in decimal, without leading zeros.
pub open spec fn dec(n: nat) -> Seq<char>
    decreases n,
{
    if n < 10 {
        seq![digit(n as int)]
    } else {
        dec(n / 10).push(digit((n % 10) as int))
    }
}

/// `n` zeros.
pub open spec fn zeros(n: nat) -> Seq<char> {
    Seq::new(n, |i: int| '0')
}

/// `n` in decimal, with zeros in front up to `width` characters.
pub open spec fn dec_padded(n: nat, width: nat) -> Seq<char> {
    let s = dec(n);
    if s.len() < width {
        zeros((width - s.len()) as nat) + s
    } else {
        s
    }
}

fn digit_char(d: u8) -> (c: char)
    requires
        d <= 9,
    ensures
        c == digit(d as int),
{
    (48 + d) as char
}

pub fn dec_text(n: u64) -> (r: String)
    ensures
        r@ == dec(n as nat),
    decreases n,
{
    if n < 10 {
        let mut r = String::new();
        r.push(digit_char(n as u8));
        assert(r@ =~= dec(n as nat));
        r
    } else {
        let mut r = dec_text(n / 10);
        r.push(digit_char((n % 10) as u8));
        r
    }
}

pub fn dec_padded_text(n: u64, width: usize) -> (r: String)
    ensures
        r@ == dec_padded(n as nat, width as nat),
{
    let s = dec_text(n);
    let len: usize = s.as_str().unicode_len();
    let mut r = String::new();
    let mut i: usize = len;
    assert(r@ =~= zeros(0));
    while i < width
        invariant
            len <= i,
            len < width ==> i <= width,
            len >= width ==> i == len,
            r@ == zeros((i - len) as nat),
        decreases width - i,
    {
        r.push('0');
        assert(r@ =~= zeros((i + 1 - len) as nat));
        i = i + 1;
    }
    r.append(s.as_str());
    assert(r@ =~= dec_padded(n as nat, width as nat));
    r
}

pub open spec fn is_digit(c: char) -> bool {
    48 <= c as int <= 57
}

/// The digit that `c` is, if it is one.
fn digit_of(c: char) -> (r: Option<u64>)
    ensures
        r == if is_digit(c) {
            Some((c as int - 48) as u64)
        } else {
            None
        },
{
    let n: u32 = c as u32;
    if 48 <= n && n <= 57 {
        Some((n - 48) as u64)
    } else {
        None
    }
}

pub open spec fn all_digits(s: Seq<char>) -> bool {
    forall|i: int| 0 <= i < s.len() ==> is_digit(#[trigger] s[i])
}

/// The number a row of digits stands for.
pub open spec fn value(s: Seq<char>) -> nat
    decreases s.len(),
{
    if s.len() == 0 {
        0
    } else {
        10 * value(s.drop_last()) + (s.last() as int - 48) as nat
    }
}

/// `s` without a plus sign at its start.
pub open spec fn unsigned(s: Seq<char>) -> Seq<char> {
    if s.len() > 0 && s[0] == '+' {
        s.skip(1)
    } else {
        s
    }
}

/// The number written in `s`: digits, perhaps after a plus sign, and no more
/// than `max`.
pub open spec fn parse_dec(s: Seq<char>, max: nat) -> Option<nat> {
    let t = unsigned(s);
    if t.len() > 0 && all_digits(t) && value(t) <= max {
        Some(value(t))
    } else {
        None
    }
}

pub fn parse_number(s: &str, max: u64) -> (r: Option<u64>)
    ensures
        match parse_dec(s@, max as nat) {
            Some(n) => r == Some(n as u64) && n <= max,
            None => r is None,
        },
{
    let cs = chars_of(s);
    let start: usize = if cs.len() > 0 && cs[0] == '+' { 1 } else { 0 };
    let ghost t = unsigned(s@);
    proof {
        if start == 0 {
            assert(t =~= cs@.skip(0));
        }
        assert(t == cs@.skip(start as int));
    }
    if start == cs.len() {
        return None;
    }
    let mut i: usize = start;
    let mut acc: u64 = 0;
    let mut over: bool = false;
    assert(t.take(0) =~= seq![]);
    while i < cs.len()
        invariant
            start <= i <= cs@.len(),
            t == unsigned(s@),
            t == cs@.skip(start as int),
            forall|k: int| 0 <= k < i - start ==> is_digit(#[trigger] t[k]),
            !over ==> acc == value(t.take(i - start)) && acc <= max,
            over ==> value(t.take(i - start)) > max,
        decreases cs.len() - i,
    {
        let c = cs[i];
        assert(t[i - start] == c);
        let n: u64 = match digit_of(c) {
            Some(d) => d,
            None => {
                assert(!is_digit(t[i - start]));
                return None;
            },
        };
        proof {
            let u = t.take(i + 1 - start);
            assert(u.drop_last() =~= t.take(i - start));
            assert(u.last() == c);
            assert(value(u) == 10 * value(t.take(i - start)) + n);
        }
        if !over {
            let next: u128 = acc as u128 * 10 + n as u128;
            if next > max as u128 {
                over = true;
            } else {
                acc = next as u64;
            }
        }
        i = i + 1;
    }
    assert(t.take(i - start) =~= t);
    if over {
        None
    } else {
        Some(acc)
    }
}

/// A written number has at least one digit, digits only, and reads back as
/// itself.
pub proof fn lemma_dec(n: nat)
    ensures
        dec(n).len() > 0,
        all_digits(dec(n)),
        value(dec(n)) == n,
    decreases n,
{
    if n < 10 {
        reveal_with_fuel(value, 2);
        let s = seq![digit(n as int)];
        assert(s.drop_last() =~= seq![]);
        assert(is_digit(s[0]));
    } else {
        lemma_dec(n / 10);
        let s = dec(n);
        assert(s.drop_last() =~= dec(n / 10));
        assert forall|i: int| 0 <= i < s.len() implies is_digit(#[trigger] s[i]) by {
            if i < s.len() - 1 {
                assert(s[i] == dec(n / 10)[i]);
            }
        }
    }
}

/// Reading a written number gives the number back.
pub proof fn lemma_parse_dec(n: nat, max: nat)
    requires
        n <= max,
    ensures
        parse_dec(dec(n), max) == Some(n),
{
    lemma_dec(n);
    assert(is_digit(dec(n)[0]));
}

// --- letter case ------------------------------------------------------------

/// `c` in lower case when it is an ASCII letter.
pub open spec fn lower_char(c: char) -> char {
    if 'A' <= c && c <= 'Z' {
        (c as int + 32) as char
    } else {
        c
    }
}

/// `s` with its ASCII letters in lower case.
pub open spec fn lower_ascii(s: Seq<char>) -> Seq<char> {
    s.map_values(|c: char| lower_char(c))
}

fn lower_one(c: char) -> (r: char)
    ensures
        r == lower_char(c),
{
    let n: u32 = c as u32;
    if 65 <= n && n <= 90 {
        (n as u8 + 32) as char
    } else {
        c
    }
}

pub fn lower_ascii_text(s: &str) -> (r: String)
    ensures
        r@ == lower_ascii(s@),
{
    let cs = chars_of(s);
    let mut r = String::new();
    let mut i: usize = 0;
    while i < cs.len()
        invariant
            i <= cs@.len(),
            r@ == lower_ascii(cs@.take(i as int)),
        decreases cs.len() - i,
    {
        r.push(lower_one(cs[i]));
        assert(r@ =~= lower_ascii(cs@.take(i + 1)));
        i = i + 1;
    }
    assert(cs@.take(cs@.len() as int) =~= cs@);
    r
}

} // verus!
