//! What holds of texts, numbers, dates and cursors.

use crate::ascii;
use crate::calendar;
use crate::conf;
use crate::cursor;
use crate::text;
use vstd::prelude::*;

verus! {

// --- texts ------------------------------------------------------------------

/// White space is the space, the tab and the line ends, and the spaces of
/// Unicode; no other character of ASCII is.
pub proof fn lemma_white_space(c: char)
    ensures
        c as int <= 127 ==> (text::is_space(c) <==> c == ' ' || c == '\t' || c == '\n' || c == '\r'
            || c == '\u{b}' || c == '\u{c}'),
        c as int > 127 ==> (text::is_space(c) <==> c == '\u{85}' || c == '\u{a0}' || c
            == '\u{1680}' || ('\u{2000}' <= c && c <= '\u{200a}') || c == '\u{2028}' || c
            == '\u{2029}' || c == '\u{202f}' || c == '\u{205f}' || c == '\u{3000}'),
{
}

proof fn lemma_trim_start(s: Seq<char>) -> (a: int)
    ensures
        0 <= a <= s.len(),
        text::trim_start(s) == s.skip(a),
        forall|i: int| 0 <= i < a ==> text::is_space(#[trigger] s[i]),
        a < s.len() ==> !text::is_space(s[a]),
    decreases s.len(),
{
    if s.len() > 0 && text::is_space(s[0]) {
        let t = s.drop_first();
        let b = lemma_trim_start(t);
        assert(t.skip(b) =~= s.skip(b + 1));
        assert forall|i: int| 0 <= i < b + 1 implies text::is_space(#[trigger] s[i]) by {
            if i > 0 {
                assert(t[i - 1] == s[i]);
            }
        }
        b + 1
    } else {
        assert(s.skip(0) =~= s);
        0
    }
}

proof fn lemma_trim_end(s: Seq<char>) -> (b: int)
    ensures
        0 <= b <= s.len(),
        text::trim_end(s) == s.take(b),
        forall|i: int| b <= i < s.len() ==> text::is_space(#[trigger] s[i]),
        b > 0 ==> !text::is_space(s[b - 1]),
    decreases s.len(),
{
    if s.len() > 0 && text::is_space(s.last()) {
        let t = s.drop_last();
        let b = lemma_trim_end(t);
        assert(t.take(b) =~= s.take(b));
        assert forall|i: int| b <= i < s.len() implies text::is_space(#[trigger] s[i]) by {
            if i < t.len() {
                assert(t[i] == s[i]);
            }
        }
        b
    } else {
        assert(s.take(s.len() as int) =~= s);
        s.len() as int
    }
}

/// Trimming takes the white space off both ends of a text, all of it, and
/// nothing else.
pub proof fn lemma_trim(s: Seq<char>)
    ensures
        exists|a: int, b: int|
            0 <= a <= b <= s.len() && #[trigger] s.subrange(a, b) == text::trim(s) && (forall|i: int|
                0 <= i < a || b <= i < s.len() ==> text::is_space(#[trigger] s[i])),
        text::trim(s).len() > 0 ==> !text::is_space(text::trim(s)[0]) && !text::is_space(
            text::trim(s).last(),
        ),
{
    let a = lemma_trim_start(s);
    let t = s.skip(a);
    let n = lemma_trim_end(t);
    let b = a + n;
    assert(s.subrange(a, b) =~= t.take(n));
    assert forall|i: int| 0 <= i < a || b <= i < s.len() implies text::is_space(#[trigger] s[i]) by {
        if i >= b {
            assert(t[i - a] == s[i]);
        }
    }
    text::lemma_trim_edges(s);
}

/// The lines of a text: up to each line feed one, without the carriage return
/// before it, and what follows the last one, if anything does.
pub proof fn lemma_lines(a: Seq<char>, rest: Seq<char>)
    requires
        !a.contains('\n'),
    ensures
        text::lines(seq![]).len() == 0,
        a.len() > 0 ==> text::lines(a) == seq![a],
        (a.len() == 0 || a.last() != '\r') ==> text::lines(a + seq!['\n'] + rest) == seq![a]
            + text::lines(rest),
        text::lines(a + seq!['\r', '\n'] + rest) == seq![a] + text::lines(rest),
{
    let n = a.len() as int;
    assert forall|i: int| 0 <= i < n implies a[i] != '\n' by {
        assert(a.contains(a[i]));
    }
    text::lemma_find_is(a, '\n', n);
    let s = a + seq!['\n'] + rest;
    assert(s[n] == '\n');
    text::lemma_find_is(s, '\n', n);
    assert(s.take(n) =~= a);
    assert(s.skip(n + 1) =~= rest);
    let t = a + seq!['\r', '\n'] + rest;
    assert(t[n] == '\r' && t[n + 1] == '\n');
    assert forall|i: int| 0 <= i < n + 1 implies t[i] != '\n' by {
        if i < n {
            assert(t[i] == a[i]);
        }
    }
    text::lemma_find_is(t, '\n', n + 1);
    assert(t.take(n + 1) =~= a.push('\r'));
    assert(a.push('\r').drop_last() =~= a);
    assert(t.skip(n + 2) =~= rest);
}

/// A text is in another when some place of the other spells it out.
pub proof fn lemma_has(s: Seq<char>, p: Seq<char>, t: Seq<char>)
    ensures
        text::has(s + p + t, p),
        text::starts_with(p + t, p),
        text::ends_with(s + p, p),
        text::has(s, p) ==> exists|a: Seq<char>, b: Seq<char>| s == #[trigger] (a + p + b),
{
    let n = s.len() as int;
    assert((s + p + t).subrange(n, n + p.len()) =~= p);
    assert(text::occurs_at(s + p + t, p, n));
    assert((p + t).take(p.len() as int) =~= p);
    assert((s + p).skip(n) =~= p);
    if text::has(s, p) {
        let i = choose|i: int| text::occurs_at(s, p, i);
        let a = s.take(i);
        let b = s.skip(i + p.len());
        assert(s =~= a + p + b) by {
            assert forall|k: int| 0 <= k < s.len() implies s[k] == (a + p + b)[k] by {
                if i <= k < i + p.len() {
                    assert(s.subrange(i, i + p.len())[k - i] == s[k]);
                }
            }
        }
    }
}

/// Lower case takes the capital letters of ASCII to the small ones and leaves
/// its other characters alone.
pub proof fn lemma_lower(s: Seq<char>, i: int)
    requires
        0 <= i < s.len(),
        forall|k: int| 0 <= k < s.len() ==> (#[trigger] s[k]) as int <= 127,
    ensures
        text::lower(s).len() == s.len(),
        'A' <= s[i] && s[i] <= 'Z' ==> text::lower(s)[i] as int - 'a' as int == s[i] as int
            - 'A' as int,
        !('A' <= s[i] && s[i] <= 'Z') ==> text::lower(s)[i] == s[i],
{
}

// --- numbers ----------------------------------------------------------------

/// A number is read from its decimal digits, perhaps after a plus sign: each
/// digit further to the right counts a tenth. Nothing, a character that is no
/// digit, or more than the most there may be is no number.
pub proof fn lemma_numbers(s: Seq<char>, c: char, max: nat)
    ensures
        ascii::is_digit(c) <==> '0' <= c && c <= '9',
        ascii::value(seq![]) == 0,
        ascii::is_digit(c) ==> ascii::value(s.push(c)) == 10 * ascii::value(s) + (c as int
            - '0' as int),
        ascii::parse_dec(seq![], max) is None,
        ascii::parse_dec(seq!['+'], max) is None,
        s.len() > 0 && s[0] != '+' ==> ascii::parse_dec(seq!['+'] + s, max) == ascii::parse_dec(
            s,
            max,
        ),
        s.len() > 0 && ascii::all_digits(s) && ascii::value(s) <= max ==> ascii::parse_dec(s, max)
            == Some(ascii::value(s)),
        s.len() > 0 && ascii::all_digits(s) && ascii::value(s) > max ==> ascii::parse_dec(s, max)
            is None,
        !ascii::is_digit(c) && c != '+' ==> ascii::parse_dec(seq![c] + s, max) is None,
        !ascii::is_digit(c) && s.len() > 0 ==> ascii::parse_dec(s.push(c), max) is None,
{
    assert(s.push(c).drop_last() =~= s);
    assert((seq!['+'] + s).skip(1) =~= s);
    assert(seq!['+'].skip(1) =~= seq![]);
    assert((seq![c] + s)[0] == c);
    if !ascii::is_digit(c) && s.len() > 0 {
        let t = ascii::unsigned(s.push(c));
        assert(t.last() == c);
        assert(!ascii::is_digit(t[t.len() - 1]));
    }
    if s.len() > 0 && ascii::all_digits(s) {
        assert(ascii::is_digit(s[0]));
    }
}

/// A digit as a character.
pub open spec fn dig(k: int) -> char {
    ('0' as int + k) as char
}

/// Numbers of up to four digits, with zeros in front.
proof fn lemma_padded(n: nat)
    ensures
        n < 100 ==> ascii::dec_padded(n, 2) == seq![dig(n as int / 10), dig(n as int % 10)],
        n < 10_000 ==> ascii::dec_padded(n, 4) == seq![
            dig(n as int / 1000),
            dig(n as int / 100 % 10),
            dig(n as int / 10 % 10),
            dig(n as int % 10),
        ],
{
    reveal_with_fuel(ascii::dec, 5);
    if n < 100 {
        assert(ascii::dec_padded(n, 2) =~= seq![dig(n as int / 10), dig(n as int % 10)]);
    }
    if n < 10_000 {
        assert(n / 10 / 10 == n / 100);
        assert(n / 100 / 10 == n / 1000);
        assert(ascii::dec_padded(n, 4) =~= seq![
            dig(n as int / 1000),
            dig(n as int / 100 % 10),
            dig(n as int / 10 % 10),
            dig(n as int % 10),
        ]);
    }
}

// --- dates ------------------------------------------------------------------

/// The months have the days they have; February has one more in every fourth
/// year, but in a full century only where 400 divides it.
pub proof fn lemma_months(y: int)
    ensures
        calendar::month_len(y, 1) == 31,
        calendar::month_len(y, 3) == 31,
        calendar::month_len(y, 4) == 30,
        calendar::month_len(y, 5) == 31,
        calendar::month_len(y, 6) == 30,
        calendar::month_len(y, 7) == 31,
        calendar::month_len(y, 8) == 31,
        calendar::month_len(y, 9) == 30,
        calendar::month_len(y, 10) == 31,
        calendar::month_len(y, 11) == 30,
        calendar::month_len(y, 12) == 31,
        y % 4 != 0 ==> calendar::month_len(y, 2) == 28,
        y % 4 == 0 && y % 100 != 0 ==> calendar::month_len(y, 2) == 29,
        y % 100 == 0 && y % 400 != 0 ==> calendar::month_len(y, 2) == 28,
        y % 400 == 0 ==> calendar::month_len(y, 2) == 29,
{
    assert(y % 400 == 0 ==> y % 100 == 0);
    assert(y % 100 == 0 ==> y % 4 == 0);
}

/// A time stamp is the local date and time of day of its second, each part in
/// its own columns: year, month, day, hour, minute and, where asked for, second.
#[verifier::rlimit(40)]
pub proof fn lemma_stamp(
    unix: u64,
    offset: int,
    y: int,
    m: int,
    d: int,
    h: int,
    min: int,
    sec: int,
)
    requires
        unix < 0x8000_0000_0000_0000,
        calendar::is_date(y, m, d),
        0 <= y <= 9999,
        0 <= h < 24,
        0 <= min < 60,
        0 <= sec < 60,
        calendar::day_number(y, m, d) * 86_400 + h * 3600 + min * 60 + sec == unix + offset,
    ensures
        calendar::stamp_at(unix, offset, false) == seq![
            dig(y / 1000),
            dig(y / 100 % 10),
            dig(y / 10 % 10),
            dig(y % 10),
            '-',
            dig(m / 10),
            dig(m % 10),
            '-',
            dig(d / 10),
            dig(d % 10),
            ' ',
            dig(h / 10),
            dig(h % 10),
            ':',
            dig(min / 10),
            dig(min % 10),
        ],
        calendar::stamp_at(unix, offset, true) == calendar::stamp_at(unix, offset, false) + seq![
            ':',
            dig(sec / 10),
            dig(sec % 10),
        ],
{
    let n = calendar::day_number(y, m, d);
    let s = h * 3600 + min * 60 + sec;
    let t = calendar::signed(unix) + offset;
    assert(t / 86_400 == n && t % 86_400 == s) by (nonlinear_arith)
        requires
            t == n * 86_400 + s,
            0 <= s < 86_400,
    ;
    let c = calendar::date_of(n);
    let w = (y, m, d);
    assert(calendar::is_date(w.0, w.1, w.2) && calendar::day_number(w.0, w.1, w.2) == n);
    calendar::lemma_day_number_injective(y, m, d, c.0, c.1, c.2);
    assert(s / 3600 == h && (s % 3600) / 60 == min && s % 60 == sec);
    lemma_padded(y as nat);
    lemma_padded(m as nat);
    lemma_padded(d as nat);
    lemma_padded(h as nat);
    lemma_padded(min as nat);
    lemma_padded(sec as nat);
    let a = calendar::stamp_at(unix, offset, false);
    assert(a =~= seq![
        dig(y / 1000),
        dig(y / 100 % 10),
        dig(y / 10 % 10),
        dig(y % 10),
        '-',
        dig(m / 10),
        dig(m % 10),
        '-',
        dig(d / 10),
        dig(d % 10),
        ' ',
        dig(h / 10),
        dig(h % 10),
        ':',
        dig(min / 10),
        dig(min % 10),
    ]);
    assert(calendar::stamp_at(unix, offset, true) =~= a + seq![
        ':',
        dig(sec / 10),
        dig(sec % 10),
    ]);
}

/// How long ago something was is told in whole minutes, hours or days, by the
/// largest of them that has passed.
pub proof fn lemma_ages(n: int, r: int)
    ensures
        0 <= r < 60 ==> calendar::age_text(r) == "just now"@,
        1 <= n < 60 && 0 <= r < 60 ==> calendar::age_text(n * 60 + r) == ascii::dec(n as nat)
            + " min ago"@,
        1 <= n < 24 && 0 <= r < 3600 ==> calendar::age_text(n * 3600 + r) == ascii::dec(n as nat)
            + " h ago"@,
        1 <= n && 0 <= r < 86_400 ==> calendar::age_text(n * 86_400 + r) == ascii::dec(n as nat)
            + " d ago"@,
{
}

// --- the files kept between sessions ----------------------------------------

/// A line of a kept file: blank and commented lines say nothing, a mark starts
/// a record, and what stands before and after the first equals sign is a key
/// and its value, without the space around them.
pub proof fn lemma_kept_line(k: Seq<char>, v: Seq<char>, mark: Seq<char>)
    requires
        k.len() > 0,
        k[0] != '#',
        !text::is_space(k[0]),
        !k.contains('='),
        v.len() > 0 ==> !text::is_space(v.last()),
        k + seq!['='] + v != mark,
    ensures
        conf::line_view(k + seq!['='] + v, mark) == (conf::LineView::Pair {
            key: text::trim(k),
            val: text::trim(v),
        }),
        conf::line_view(seq![], mark) is Skip,
        conf::line_view(seq!['#'] + v, mark) is Skip,
        conf::pair_line(k, v) == k + seq![' ', '=', ' '] + v,
{
    let s = k + seq!['='] + v;
    assert(s.last() == if v.len() > 0 {
        v.last()
    } else {
        '='
    });
    text::lemma_trim_id(s);
    let n = k.len() as int;
    assert forall|i: int| 0 <= i < n implies s[i] != '=' by {
        assert(s[i] == k[i]);
        assert(k.contains(k[i]));
    }
    assert(s[n] == '=');
    text::lemma_find_is(s, '=', n);
    assert(s.take(n) =~= k);
    assert(s.skip(n + 1) =~= v);
    assert(s[0] == k[0]);
    let c = seq!['#'] + v;
    if v.len() > 0 {
        assert(c.last() == v.last());
    }
    text::lemma_trim_id(c);
    let e: Seq<char> = seq![];
    text::lemma_trim_id(e);
}

// --- cursors ----------------------------------------------------------------

/// Moving the cursor of a list by some rows, to its first or to its last: it
/// goes as far as the list does. A cursor on no row counts as on the first.
pub proof fn lemma_cursor(i: usize, n: usize, len: int)
    requires
        0 <= i < len <= usize::MAX,
    ensures
        i + n < len ==> cursor::down(Some(i), n, len) == Some((i + n) as usize),
        i + n >= len ==> cursor::down(Some(i), n, len) == Some((len - 1) as usize),
        n <= i ==> cursor::up(Some(i), n, len) == Some((i - n) as usize),
        n > i ==> cursor::up(Some(i), n, len) == Some(0usize),
        cursor::first(Some(i), len) == Some(0usize),
        cursor::last(Some(i), len) == Some((len - 1) as usize),
        cursor::down(None, n, len) == cursor::down(Some(0), n, len),
        cursor::up(None, n, len) == Some(0usize),
        cursor::down(None, n, 0) is None,
        cursor::up(None, n, 0) is None,
        cursor::first(None, 0) is None,
        cursor::last(None, 0) is None,
{
}

} // verus!
