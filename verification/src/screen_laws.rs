//! What the screen shows: times, bars and beats, sizes, marks and labels, and
//! where the popups stand.

use crate::app::{AppView, Panel, PlayState, Source, SourceView};
use crate::ascii;
use crate::browser;
use crate::browser::{BrowserView, EntryView};
use crate::favourites;
use crate::history::{RowView, View as LogView};
use crate::lines;
use crate::lines::Look;
use crate::listing_laws;
use crate::midi::{Length, MidiInfo};
use crate::player;
use crate::text_laws;
use crate::ui;
use crate::ui::{EntryKind, Place, Tone};
use crate::vfs;
use crate::vfs::LocView;
use vstd::prelude::*;

verus! {

// --- the player's readout ---------------------------------------------------

/// The bar and the beat: a tick `r` ticks into the beat `beat` of the bar `bar`
/// is there, a beat being as long as the time signature says and a bar as many
/// of them. Before the start it is the first beat.
pub proof fn lemma_bar_and_beat(info: MidiInfo, len: int, bar: int, beat: int, r: int, tick: i32)
    requires
        info.division > 0,
        info.ts_den > 0,
        info.ts_num > 0,
        len == info.division * 4 / info.ts_den as int,
        len >= 1,
        bar >= 1,
        1 <= beat <= info.ts_num,
        0 <= r < len,
        tick == ((bar - 1) * info.ts_num + (beat - 1)) * len + r,
    ensures
        player::bar_beat_of(tick, info) == Some((bar, beat)),
{
    let n = info.ts_num as int;
    let per = len * n;
    let x = bar - 1;
    let y = beat - 1;
    let rest = y * len + r;
    assert((x * n + y) * len + r == x * per + rest) by (nonlinear_arith)
        requires
            per == len * n,
            rest == y * len + r,
    ;
    assert(0 <= rest < per) by (nonlinear_arith)
        requires
            per == len * n,
            rest == y * len + r,
            0 <= y <= n - 1,
            0 <= r < len,
    ;
    assert(x * per >= 0) by (nonlinear_arith)
        requires
            x >= 0,
            per >= 0,
    ;
    assert((x * per + rest) / per == x && (x * per + rest) % per == rest) by (nonlinear_arith)
        requires
            0 <= rest < per,
    ;
    assert((y * len + r) / len == y) by (nonlinear_arith)
        requires
            0 <= r < len,
    ;
}

/// Before the start it is the first beat of the first bar, and without a
/// division there is neither.
pub proof fn lemma_bar_and_beat_edges(info: MidiInfo, tick: i32)
    requires
        tick <= 0,
    ensures
        info.division > 0 ==> player::bar_beat_of(tick, info) == Some((1int, 1int)),
        info.division == 0 ==> player::bar_beat_of(tick, info) is None,
{
    let beat = info.division * 4 / if info.ts_den > 0 {
        info.ts_den as int
    } else {
        1
    };
    let b = if beat > 0 {
        beat
    } else {
        1
    };
    let n = if info.ts_num > 0 {
        info.ts_num as int
    } else {
        1
    };
    assert(b * n > 0) by (nonlinear_arith)
        requires
            b > 0,
            n > 0,
    ;
    assert(0int / (b * n) == 0 && 0int % (b * n) == 0 && 0int / b == 0) by (nonlinear_arith)
        requires
            b * n > 0,
            b > 0,
    ;
}

/// The times: what was played, in seconds; and the length of the file or, where
/// it is unknown, what the part played so far makes it, once that is more than
/// a thousandth.
pub proof fn lemma_times(a: AppView, ns: u64, cur: i32, total: i32)
    requires
        0 <= cur <= total,
        total > 0,
    ensures
        ({
            let t = a.times_of(ns, Some((cur, total)));
            let known = a.cur_info is Some && (a.cur_info->0).length.num > 0;
            &&& t.0.num == a.counted(ns) && t.0.den == 1_000_000_000
            &&& known ==> t.1 == (a.cur_info->0).length
            &&& !known && cur * 1000 > total ==> t.1.num * (cur * 1_000_000_000) == a.counted(ns)
                * total * t.1.den && t.1.den > 0
            &&& !known && cur * 1000 <= total ==> t.1.num == 0
        }),
{
    let e = a.counted(ns);
    assert(0 <= e * total <= u128::MAX) by (nonlinear_arith)
        requires
            0 <= e <= u64::MAX,
            0 <= total <= i32::MAX,
    ;
    assert(0 <= cur * 1_000_000_000 <= u64::MAX);
}

/// Progress is the tick out of all of them, within what there is.
pub proof fn lemma_progress(cur: i32, total: i32)
    ensures
        total > 0 && 0 <= cur <= total ==> player::played(Some((cur, total))) == (
            cur as int,
            total as int,
        ),
        total > 0 && cur < 0 ==> player::played(Some((cur, total))) == (0int, total as int),
        total > 0 && cur > total ==> player::played(Some((cur, total))) == (
            total as int,
            total as int,
        ),
        total <= 0 ==> player::played(Some((cur, total))).0 == 0,
        player::played(None).0 == 0,
{
}

proof fn lemma_two_digits(n: nat)
    requires
        n < 100,
    ensures
        ascii::dec_padded(n, 2) == seq![text_laws::dig(n as int / 10), text_laws::dig(n as int % 10)],
{
    reveal_with_fuel(ascii::dec, 3);
    assert(ascii::dec_padded(n, 2) =~= seq![text_laws::dig(n as int / 10), text_laws::dig(n as int % 10)]);
}

/// A time in the player bar is in whole seconds, rounded down: minutes and
/// seconds of two digits, and hours before them from an hour on.
pub proof fn lemma_time_text(t: Length, h: int, m: int, s: int)
    requires
        t.num > 0,
        t.den > 0,
        0 <= h <= 1_000_000,
        0 <= m < 60,
        0 <= s < 60,
        (h * 3600 + m * 60 + s) * t.den <= t.num < (h * 3600 + m * 60 + s + 1) * t.den,
    ensures
        h == 0 ==> ui::time_text(t) == seq![text_laws::dig(m / 10), text_laws::dig(m % 10), ':', text_laws::dig(s / 10), text_laws::dig(s % 10)],
        h > 0 ==> ui::time_text(t) == ascii::dec(h as nat) + seq![
            ':',
            text_laws::dig(m / 10),
            text_laws::dig(m % 10),
            ':',
            text_laws::dig(s / 10),
            text_laws::dig(s % 10),
        ],
{
    let all = h * 3600 + m * 60 + s;
    let (num, den) = (t.num as int, t.den as int);
    assert(num / den == all) by (nonlinear_arith)
        requires
            den > 0,
            all * den <= num < (all + 1) * den,
    ;
    lemma_two_digits(m as nat);
    lemma_two_digits(s as nat);
    if h == 0 {
        assert(all / 60 == m && all % 60 == s);
        assert(ui::time_text(t) =~= seq![text_laws::dig(m / 10), text_laws::dig(m % 10), ':', text_laws::dig(s / 10), text_laws::dig(s % 10)]);
    } else {
        assert(all / 3600 == h && (all % 3600) / 60 == m && all % 60 == s);
        assert(ui::time_text(t) =~= ascii::dec(h as nat) + seq![
            ':',
            text_laws::dig(m / 10),
            text_laws::dig(m % 10),
            ':',
            text_laws::dig(s / 10),
            text_laws::dig(s % 10),
        ]);
    }
}

/// A length in the file list is to the nearest second, a half up: minutes
/// without a leading zero, and hours before them from an hour on.
pub proof fn lemma_length_text(t: Length, all: int, h: int, m: int, s: int)
    requires
        t.num > 0,
        t.den > 0,
        0 <= h <= 1_000_000,
        0 <= m < 60,
        0 <= s < 60,
        all == h * 3600 + m * 60 + s,
        (2 * all - 1) * t.den <= 2 * t.num < (2 * all + 1) * t.den,
    ensures
        h == 0 ==> ui::length_text(t) == ascii::dec(m as nat) + seq![':', text_laws::dig(s / 10), text_laws::dig(s % 10)],
        h > 0 ==> ui::length_text(t) == ascii::dec(h as nat) + seq![
            ':',
            text_laws::dig(m / 10),
            text_laws::dig(m % 10),
            ':',
            text_laws::dig(s / 10),
            text_laws::dig(s % 10),
        ],
{
    lemma_rounded(t, all);
    lemma_two_digits(m as nat);
    lemma_two_digits(s as nat);
    ascii::lemma_dec(m as nat);
    if h == 0 {
        assert(all / 60 == m && all % 60 == s);
        assert(ui::clock(all, 1) =~= ascii::dec(m as nat) + seq![':', text_laws::dig(s / 10), text_laws::dig(s % 10)]);
    } else {
        assert(all / 3600 == h && (all % 3600) / 60 == m && all % 60 == s);
        assert(ui::clock(all, 1) =~= ascii::dec(h as nat) + seq![
            ':',
            text_laws::dig(m / 10),
            text_laws::dig(m % 10),
            ':',
            text_laws::dig(s / 10),
            text_laws::dig(s % 10),
        ]);
    }
}

proof fn lemma_rounded(t: Length, all: int)
    requires
        t.num > 0,
        t.den > 0,
        0 <= all <= u64::MAX,
        (2 * all - 1) * t.den <= 2 * t.num < (2 * all + 1) * t.den,
    ensures
        ui::length_text(t) == ui::clock(all, 1),
{
    let (num, den) = (t.num as int, t.den as int);
    let q = num / den;
    let r = num % den;
    assert(num == q * den + r && 0 <= r < den) by (nonlinear_arith)
        requires
            den > 0,
            q == num / den,
            r == num % den,
    ;
    let x = (2 * all - 1) * den;
    let y = 2 * q * den;
    let d = all - q;
    assert(x - y == (2 * d - 1) * den) by (nonlinear_arith)
        requires
            x == (2 * all - 1) * den,
            y == 2 * q * den,
            d == all - q,
    ;
    assert((2 * all + 1) * den == x + 2 * den) by (nonlinear_arith)
        requires
            x == (2 * all - 1) * den,
    ;
    assert(2 * num == y + 2 * r) by (nonlinear_arith)
        requires
            num == q * den + r,
            y == 2 * q * den,
    ;
    let z = (2 * d - 1) * den;
    assert(z <= 2 * r < z + 2 * den);
    assert(0 <= d <= 1) by (nonlinear_arith)
        requires
            z == (2 * d - 1) * den,
            z <= 2 * r < z + 2 * den,
            0 <= r < den,
    ;
    if d == 0 {
        assert(z == -den) by (nonlinear_arith)
            requires
                z == (2 * d - 1) * den,
                d == 0,
        ;
    } else {
        assert(z == den) by (nonlinear_arith)
            requires
                z == (2 * d - 1) * den,
                d == 1,
        ;
    }
}

/// What is not known is not shown: nothing in the file list, zeros in the
/// player bar.
pub proof fn lemma_unknown_length(t: Length)
    requires
        t.num == 0 || t.den == 0,
    ensures
        ui::length_text(t).len() == 0,
        ui::time_text(t) == "00:00"@,
{
}

// --- sizes ------------------------------------------------------------------

/// A unit of a size: its letter, and how many bytes it is.
pub open spec fn is_unit(c: char, u: int) -> bool {
    ||| c == 'K' && u == 1024
    ||| c == 'M' && u == 1024 * 1024
    ||| c == 'G' && u == 1024 * 1024 * 1024
    ||| c == 'T' && u == 1024 * 1024 * 1024 * 1024
}

proof fn lemma_nearest(a: int, b: int)
    requires
        a >= 0,
        b > 0,
    ensures
        -b <= 2 * (a - ui::nearest_even(a, b) * b) <= b,
        2 * (a - ui::nearest_even(a, b) * b) == b || 2 * (a - ui::nearest_even(a, b) * b) == -b
            ==> ui::nearest_even(a, b) % 2 == 0,
        ui::nearest_even(a, b) >= 0,
{
    let q = a / b;
    let r = a % b;
    assert(a == q * b + r && 0 <= r < b && q >= 0) by (nonlinear_arith)
        requires
            a >= 0,
            b > 0,
            q == a / b,
            r == a % b,
    ;
    assert((q + 1) * b == q * b + b) by (nonlinear_arith);
}

/// A size below a kilobyte is in bytes; above, in the largest unit that fits:
/// with one decimal below ten of it, in whole units from there on, to the
/// nearest of either, a half to the even one.
pub proof fn lemma_sizes(n: u64, u: int, c: char) -> (t: int)
    requires
        n < 0x20_0000_0000_0000,
    ensures
        n < 1024 ==> ui::size_text(n) == ascii::dec(n as nat) + seq!['B'],
        is_unit(c, u) && u <= n < 10 * u ==> t >= 0 && -u <= 2 * (10 * n - t * u) <= u && (2 * (10
            * n - t * u) == u || 2 * (10 * n - t * u) == -u ==> t % 2 == 0) && ui::size_text(n) == ascii::dec((t / 10) as nat) + seq!['.'] + ascii::dec(
            (t % 10) as nat,
        ) + seq![c],
        is_unit(c, u) && 10 * u <= n && (n < 1024 * u || c == 'T') ==> t >= 0 && -u <= 2 * (n - t
            * u) <= u && (2 * (n - t * u) == u || 2 * (n - t * u) == -u ==> t % 2 == 0)
            && ui::size_text(n) == ascii::dec(t as nat) + seq![c],
{
    assert(ui::spacing(n as nat) == 1);
    assert(ui::to_53_digits(n as nat) == n) by {
        assert(n as int / 1 == n && n as int % 1 == 0);
        assert(n * 1 == n);
    }
    if n < 1024 {
        assert(ui::size_text(n) =~= ascii::dec(n as nat) + seq!['B']);
        0
    } else if is_unit(c, u) && u <= n < 10 * u {
        let t = ui::nearest_even(10 * n, u);
        lemma_nearest(10 * n, u);
        assert(ui::size_text(n) =~= ascii::dec((t / 10) as nat) + seq!['.'] + ascii::dec(
            (t % 10) as nat,
        ) + seq![c]);
        t
    } else if is_unit(c, u) && 10 * u <= n && (n < 1024 * u || c == 'T') {
        let t = ui::nearest_even(n as int, u);
        lemma_nearest(n as int, u);
        assert(ui::size_text(n) =~= ascii::dec(t as nat) + seq![c]);
        t
    } else {
        0
    }
}

// --- columns ----------------------------------------------------------------

/// A text put into a column fills it: with blanks behind it, or cut off with an
/// ellipsis where it is too long. One put to the right has the blanks in front.
pub proof fn lemma_columns(s: Seq<char>, w: nat, i: int)
    requires
        0 <= i < w,
    ensures
        ui::fitted(s, w).len() == w,
        s.len() <= w && i < s.len() ==> ui::fitted(s, w)[i] == s[i],
        s.len() <= i ==> ui::fitted(s, w)[i] == ' ',
        s.len() > w && i < w - 1 ==> ui::fitted(s, w)[i] == s[i],
        s.len() > w ==> ui::fitted(s, w)[w - 1] == '…',
        ui::fitted(s, 0).len() == 0,
        s.len() >= w ==> ui::right_aligned(s, w) == s,
        s.len() < w ==> ui::right_aligned(s, w).len() == w && ui::right_aligned(s, w).skip(
            w - s.len(),
        ) == s && (i < w - s.len() ==> ui::right_aligned(s, w)[i] == ' '),
{
    if s.len() < w {
        assert(ui::right_aligned(s, w).skip(w - s.len()) =~= s);
    }
}

// --- the panels -------------------------------------------------------------

/// What a row of a panel is, its sign, and what stands to its right: the length
/// of a MIDI file, the size of a SoundFont or an archive, nothing for others.
pub proof fn lemma_panel_rows(panel: Panel, e: EntryView)
    ensures
        e.is_parent ==> ui::kind_of(panel, e) == EntryKind::Parent,
        !e.is_parent && e.is_dir ==> ui::kind_of(panel, e) == EntryKind::Dir,
        !e.is_parent && !e.is_dir && panel == Panel::Midi && listing_laws::is_playlist_name(
            e.name,
            true,
        ) ==> ui::kind_of(panel, e) == EntryKind::Playlist,
        !e.is_parent && !e.is_dir && (panel == Panel::Sf2 || !listing_laws::is_playlist_name(
            e.name,
            true,
        )) ==> ui::kind_of(panel, e) == EntryKind::File,
        ui::icon_of(EntryKind::Parent) == ".."@,
        ui::icon_of(EntryKind::Dir) == "[+]"@,
        ui::icon_of(EntryKind::Playlist) == " ≡ "@,
        ui::icon_of(EntryKind::File) == "   "@,
        e.is_dir && e.size == 0 ==> ui::right_text(panel, e).len() == 0,
        e.is_dir && e.size > 0 ==> ui::right_text(panel, e) == ui::size_text(e.size),
        !e.is_dir && panel == Panel::Sf2 ==> ui::right_text(panel, e) == ui::size_text(e.size),
        !e.is_dir && panel == Panel::Midi && e.length is None ==> ui::right_text(panel, e).len()
            == 0,
        !e.is_dir && panel == Panel::Midi && e.length is Some ==> ui::right_text(panel, e)
            == ui::length_text(e.length->0),
        lines::entry_look(ui::kind_of(panel, e), true) == Look::Bold(Tone::Green),
        lines::entry_look(EntryKind::Parent, false) == Look::Colour(Tone::Yellow),
        lines::entry_look(EntryKind::Dir, false) == Look::Bold(Tone::Blue),
        lines::entry_look(EntryKind::Playlist, false) == Look::Colour(Tone::Magenta),
        lines::entry_look(EntryKind::File, false) == Look::Colour(Tone::White),
{
    listing_laws::lemma_extensions(e.name);
}

/// The note beside a name is there for the playing track and for the loaded
/// SoundFont, whatever the spelling of their paths, and the star is behind it.
pub proof fn lemma_note(a: AppView, panel: Panel, loc: LocView)
    ensures
        (a.now_playing is Some && (a.now_playing->0).key() == loc.key()) || (a.soundfont is Some && (
        a.soundfont->0).key() == loc.key()) ==> a.marker_of(panel, loc) == "♪"@ + a.star_of(
            panel,
            loc,
        ),
        !(a.now_playing is Some && (a.now_playing->0).key() == loc.key()) && !(a.soundfont is Some
            && (a.soundfont->0).key() == loc.key()) ==> a.marker_of(panel, loc) == " "@ + a.star_of(
            panel,
            loc,
        ),
{
}

/// How many rows a list has without the entry of the parent.
pub proof fn lemma_items_counted(v: Seq<EntryView>, e: EntryView)
    ensures
        browser::count_items(seq![]) == 0,
        browser::count_items(v.push(e)) == browser::count_items(v) + if e.is_parent {
            0nat
        } else {
            1
        },
{
    assert(v.push(e).drop_last() =~= v);
}

/// The titles of a panel: what it lists and where, and how many items there
/// are; while it is filtered, how many of all of them.
pub proof fn lemma_panel_titles(b: BrowserView, title: Seq<char>)
    ensures
        ui::panel_title_text(b, title) == " "@ + title + " — "@ + b.dir.display() + " "@,
        b.filter.len() == 0 && browser::count_items(b.entries) == 1 ==> ui::panel_count_text(b)
            == " "@ + ascii::dec(1) + " item "@,
        b.filter.len() == 0 && browser::count_items(b.entries) != 1 ==> ui::panel_count_text(b)
            == " "@ + ascii::dec(browser::count_items(b.entries)) + " items "@,
        b.filter.len() > 0 ==> ui::panel_count_text(b) == " "@ + ascii::dec(
            browser::count_items(b.entries),
        ) + " of "@ + ascii::dec(browser::count_items(b.all)) + " "@,
{
}

// --- the player bar ---------------------------------------------------------

/// The player bar says whether it plays, pauses or stands, what plays through
/// what, and how loud.
pub proof fn lemma_player_bar(a: AppView)
    ensures
        ui::state_badge_of(PlayState::Playing) == ("▶ PLAY "@, Tone::Green),
        ui::state_badge_of(PlayState::Paused) == ("⏸ PAUSE"@, Tone::Yellow),
        ui::state_badge_of(PlayState::Stopped) == ("⏹ STOP "@, Tone::Red),
        a.soundfont is None ==> a.font_label() == "SF: "@ + "none"@,
        a.soundfont is Some ==> a.font_label() == "SF: "@ + (a.soundfont->0).file_name(),
        a.volume_label() == "Vol "@ + ui::right_aligned(ascii::dec(a.volume as nat), 3) + "%"@,
        lines::mode_look(true) == Look::Lit(Tone::Green),
        lines::mode_look(false) == Look::Colour(Tone::DarkGray),
{
}

/// The modes in the player bar: next, repeat, and whether what is heard is
/// starred, each lit when it is so.
pub proof fn lemma_modes_shown(a: AppView)
    ensures
        ({
            let v = a.mode_pieces();
            let starred = a.now_playing is Some && a.soundfont is Some && exists|i: int|
                0 <= i < a.favs.entries.len() && (#[trigger] a.favs.entries[i]).midi.key() == (
                a.now_playing->0).key() && a.favs.entries[i].soundfont.key() == (
                a.soundfont->0).key();
            let lit = |on: bool|
                if on {
                    Look::Lit(Tone::Green)
                } else {
                    Look::Colour(Tone::DarkGray)
                };
            &&& v.len() == 10
            &&& v[1].text == a.font_label() && v[3].text == a.volume_label()
            &&& v[5].text == " Next "@ && v[5].look == lit(a.next_mode)
            &&& v[7].text == " Rep "@ && v[7].look == lit(a.repeat)
            &&& v[9].text == " Fav "@ && v[9].look == lit(starred)
        }),
{
    let v = a.favs.entries;
    if a.now_playing is Some && a.soundfont is Some {
        let k = ((a.now_playing->0).key(), (a.soundfont->0).key());
        let f = favourites::find_fav(v, k);
        favourites::lemma_find_fav(v, k);
        if f < v.len() {
            assert(v[f].key() == k);
        } else {
            assert forall|i: int| 0 <= i < v.len() implies (#[trigger] v[i]).key() != k by {}
        }
    }
}

/// The badge of the queue: which list it is and how far along, from one on.
pub proof fn lemma_queue_badge(a: AppView, i: int)
    ensures
        a.play_source is Directory ==> a.queue_badge() is None,
        a.play_source matches SourceView::History { rows, idx, .. } ==> (idx < rows.len()
            ==> a.queue_badge() == Some(
            " "@ + "Hist"@ + " "@ + ascii::dec((idx + 1) as nat) + "/"@ + ascii::dec(rows.len())
                + " "@,
        )),
        a.play_source matches SourceView::Playlist { id, .. } ==> (a.playlist.wf() && 0 <= i
            < a.playlist.ids.len() && a.playlist.ids[i] == id ==> a.queue_badge() == Some(
            " "@ + "List"@ + " "@ + ascii::dec((i + 1) as nat) + "/"@ + ascii::dec(
                a.playlist.items.len(),
            ) + " "@,
        )),
        a.play_source matches SourceView::Favourites { midi, soundfont, .. } ==> (0 <= i
            < a.favs.entries.len() && a.favs.entries[i].key() == (midi.key(), soundfont.key()) && (
        forall|k: int|
            0 <= k < i ==> (#[trigger] a.favs.entries[k]).key() != (midi.key(), soundfont.key()))
            ==> a.queue_badge() == Some(
            " "@ + "Favs"@ + " "@ + ascii::dec((i + 1) as nat) + "/"@ + ascii::dec(
                a.favs.entries.len(),
            ) + " "@,
        )),
{
    match a.play_source {
        SourceView::Playlist { id, .. } => {
            crate::playlist::lemma_find_id(a.playlist.ids, id);
            let p = crate::playlist::find_id(a.playlist.ids, id);
            if a.playlist.wf() && 0 <= i < a.playlist.ids.len() && a.playlist.ids[i] == id {
                if p < i {
                    assert(a.playlist.ids[p] != a.playlist.ids[i]);
                }
                if i < p {
                    assert(a.playlist.ids[i] != id);
                }
            }
        },
        SourceView::Favourites { midi, soundfont, .. } => {
            let k = (midi.key(), soundfont.key());
            favourites::lemma_find_fav(a.favs.entries, k);
            let f = favourites::find_fav(a.favs.entries, k);
            if 0 <= i < a.favs.entries.len() && a.favs.entries[i].key() == k && i < f {
                assert(a.favs.entries[i].key() != k);
            }
        },
        _ => {},
    }
}

// --- the overlay ------------------------------------------------------------

/// The marks of a row in the overlay: an exclamation mark where a side of it is
/// gone; then a note where it plays, but in the history; else a star where its
/// pair is starred, but in the favourites.
pub proof fn lemma_row_marks(a: AppView, source: Source, r: RowView)
    ensures
        ({
            let m = a.row_mark(source, r);
            let heard = vfs::opt_key(r.midi) == vfs::opt_key(a.now_playing) && vfs::opt_key(
                r.soundfont,
            ) == vfs::opt_key(a.soundfont);
            let sf = if source == Source::Playlist && r.soundfont is None {
                a.user_font
            } else {
                r.soundfont
            };
            let starred = r.midi is Some && sf is Some && exists|i: int|
                0 <= i < a.favs.entries.len() && (#[trigger] a.favs.entries[i]).midi.key() == (
                r.midi->0).key() && a.favs.entries[i].soundfont.key() == (sf->0).key();
            let first = if r.gone {
                "!"@
            } else {
                " "@
            };
            &&& source == Source::History && starred ==> m == first + "★"@
            &&& source == Source::History && !starred ==> m == first + " "@
            &&& source == Source::Favourites && heard && !r.gone ==> m == first + "♪"@
            &&& source == Source::Favourites && (!heard || r.gone) ==> m == first + " "@
            &&& source == Source::Playlist && r.gone && starred ==> m == first + "★"@
            &&& source == Source::Playlist && r.gone && !starred ==> m == first + " "@
        }),
{
    let v = a.favs.entries;
    let sf = if source == Source::Playlist && r.soundfont is None {
        a.user_font
    } else {
        r.soundfont
    };
    if r.midi is Some && sf is Some {
        let k = ((r.midi->0).key(), (sf->0).key());
        let f = favourites::find_fav(v, k);
        favourites::lemma_find_fav(v, k);
        if f < v.len() {
            assert(v[f].key() == k);
        } else {
            assert forall|i: int| 0 <= i < v.len() implies (#[trigger] v[i]).key() != k by {}
        }
    }
}

/// The title of the overlay: which list and which view of it, how many rows, out
/// of how many while it is filtered, and whether the playlist is unsaved.
pub proof fn lemma_overlay_titles(a: AppView)
    requires
        a.overlay is Some,
    ensures
        ({
            let o = a.overlay->0;
            let t = a.overlay_title();
            let n = ascii::dec(o.rows.len());
            let filtered = o.filtering || o.filter.len() > 0;
            &&& o.source == Source::History && o.view == LogView::Pairs && !filtered ==> t == Some(
                " "@ + ("History — "@ + "recent"@) + " · "@ + n + " "@,
            )
            &&& o.source == Source::History && o.view == LogView::Tracks && !filtered ==> t == Some(
                " "@ + ("History — "@ + "tracks"@) + " · "@ + n + " "@,
            )
            &&& o.source == Source::History && o.view == LogView::Fonts && !filtered ==> t == Some(
                " "@ + ("History — "@ + "soundfonts"@) + " · "@ + n + " "@,
            )
            &&& o.source == Source::Favourites && !filtered ==> t == Some(
                " "@ + "Favourites"@ + " · "@ + n + " "@,
            )
            &&& o.source == Source::Favourites && filtered ==> t == Some(
                " "@ + "Favourites"@ + " · "@ + ("/"@ + o.filter + " · "@ + n + " of "@ + ascii::dec(
                    a.favs.entries.len(),
                )) + " "@,
            )
            &&& o.source == Source::Playlist && !filtered && a.playlist.dirty ==> t == Some(
                " "@ + ("Playlist — "@ + a.playlist.name()) + " · "@ + n + " · modified "@,
            )
            &&& o.source == Source::Playlist && !filtered && !a.playlist.dirty ==> t == Some(
                " "@ + ("Playlist — "@ + a.playlist.name()) + " · "@ + n + " "@,
            )
        }),
{
}

/// A popup stands inside what it stands over, with as much room on one side as
/// on the other. The overlay is no wider than 110 columns and as high as its
/// rows need, the help 60 columns wide and as high as its text, as far as there
/// is room.
pub proof fn lemma_popups(area: Place, n: nat)
    requires
        area.x + area.width <= u16::MAX,
        area.y + area.height <= u16::MAX,
        area.width >= 5,
        area.height >= 3,
    ensures
        ({
            let o = ui::overlay_box(area, n);
            let h = ui::help_box(area, n);
            &&& o.width == if area.width - 4 < 110 {
                area.width - 4
            } else {
                110
            }
            &&& n + 5 <= area.height - 2 && n + 5 >= 6 ==> o.height == n + 5
            &&& n + 5 > area.height - 2 ==> o.height == area.height - 2
            &&& h.width == if area.width - 2 < 60 {
                area.width - 2
            } else {
                60
            }
            &&& n + 2 <= area.height - 2 ==> h.height == n + 2
            &&& n + 2 > area.height - 2 ==> h.height == area.height - 2
            &&& 0 <= (area.x + area.width - (o.x + o.width)) - (o.x - area.x) <= 1
            &&& 0 <= (area.y + area.height - (o.y + o.height)) - (o.y - area.y) <= 1
            &&& 0 <= (area.x + area.width - (h.x + h.width)) - (h.x - area.x) <= 1
            &&& 0 <= (area.y + area.height - (h.y + h.height)) - (h.y - area.y) <= 1
        }),
{
}

/// The columns of the overlay's table: the time or, in the playlist, the number
/// on the left, the plays on the right, and what is left of the width halved
/// between the two names.
pub proof fn lemma_table_columns(width: int, source: Source)
    requires
        width >= 27,
    ensures
        ({
            let c = ui::columns(width, source);
            &&& c.0 == if source == Source::Playlist {
                6int
            } else {
                18
            }
            &&& c.3 == 5
            &&& c.0 + 1 + c.1 + 1 + c.2 + 1 + c.3 + 1 == width
            &&& 0 <= c.2 - c.1 <= 1
        }),
{
}

/// A row of the table fills its columns, with a blank between each two.
pub proof fn lemma_table_row(
    when: Seq<char>,
    track: Seq<char>,
    font: Seq<char>,
    plays: Seq<char>,
    cols: (usize, usize, usize, usize),
)
    ensures
        ui::table_row(when, track, font, plays, cols) == ui::fitted(when, cols.0 as nat) + " "@
            + ui::fitted(track, cols.1 as nat) + " "@ + ui::fitted(font, cols.2 as nat) + " "@
            + ui::right_aligned(plays, cols.3 as nat),
{
}

/// The progress bar is empty while nothing is on, and otherwise as far as the
/// track is, in the colour of the state.
pub proof fn lemma_gauge(p: (u32, u32), t: Tone)
    ensures
        ui::gauge_of(PlayState::Playing, p, t) == (p, t),
        ui::gauge_of(PlayState::Paused, p, t) == (p, t),
        ui::gauge_of(PlayState::Stopped, p, t).0.0 == 0,
{
}


/// The cells of a row: the time it was played or starred or, in the playlist, its
/// number from one on; the two names, with a dash or the user's font where there
/// is none; and how often it was played, if it was.
pub proof fn lemma_row_cells(
    a: AppView,
    source: Source,
    r: RowView,
    offset: int,
    cols: (usize, usize, usize, usize),
)
    requires
        r.idxs.len() > 0,
    ensures
        ({
            let first = if source == Source::Playlist {
                ui::right_aligned(ascii::dec((r.idxs[0] + 1) as nat), 4)
            } else {
                crate::calendar::stamp_at(r.when, offset, false)
            };
            let track = if r.midi is Some {
                (r.midi->0).file_name()
            } else {
                "—"@
            };
            let font = if r.soundfont is Some {
                (r.soundfont->0).file_name()
            } else if source == Source::Playlist {
                "(your font)"@
            } else {
                "—"@
            };
            let plays = if r.plays > 0 {
                ascii::dec(r.plays as nat) + "x"@
            } else {
                ""@
            };
            a.row_text(source, r, offset, cols) == ui::table_row(
                a.row_mark(source, r) + first,
                track,
                font,
                plays,
                cols,
            )
        }),
{
    reveal_strlit("x");
    reveal_strlit("");
    assert(ascii::dec(r.plays as nat).push('x') =~= ascii::dec(r.plays as nat) + "x"@);
    assert(""@ =~= seq![]);
}

/// The playing row of the playlist is the one that the queue is at, not each that
/// holds the same pair; in the other lists it is the pair that is heard.
pub proof fn lemma_playing_row(a: AppView, r: RowView, i: int)
    requires
        a.playlist.wf(),
        a.play_source matches SourceView::Playlist { id, .. } && 0 <= i < a.playlist.ids.len()
            && a.playlist.ids[i] == id,
        r.idxs.len() > 0,
        !r.gone,
    ensures
        a.row_playing(Source::Playlist, r) <==> r.idxs[0] == i,
        a.row_playing(Source::History, r) <==> vfs::opt_key(r.midi) == vfs::opt_key(a.now_playing)
            && vfs::opt_key(r.soundfont) == vfs::opt_key(a.soundfont),
{
    let id = a.playlist.ids[i];
    crate::playlist::lemma_find_id(a.playlist.ids, id);
    let p = crate::playlist::find_id(a.playlist.ids, id);
    if p < i {
        assert(a.playlist.ids[p] != a.playlist.ids[i]);
    }
    if i < p {
        assert(a.playlist.ids[i] != id);
    }
}

/// What is told of the row at the cursor: where its track and its SoundFont are,
/// how long ago it was played or starred, and in the playlist which SoundFont of
/// the user's stands in where it has none.
pub proof fn lemma_row_details(a: AppView, row: RowView, source: Source, now: u64)
    requires
        crate::sound_laws::on_row(a, source, row),
        now >= row.when,
    ensures
        ({
            let d = a.details(now);
            &&& d is Some
            &&& (d->0).0.0 == row.midi
            &&& source != Source::Playlist ==> (d->0).0.1 == crate::calendar::age_text(
                now - row.when,
            ) && (d->0).1.0 == row.soundfont && (d->0).1.1.len() == 0
            &&& source == Source::Playlist && row.soundfont is Some ==> (d->0).1.0 == row.soundfont
                && (d->0).1.1.len() == 0
            &&& source == Source::Playlist && row.soundfont is None && a.user_font is Some ==> (
            d->0).1.0 == a.user_font && (d->0).1.1 == "your font"@
            &&& source == Source::Playlist && row.soundfont is None && a.user_font is None ==> (
            d->0).1.0 is None && (d->0).1.1 == "your font — none loaded yet"@
        }),
{
}


/// The line of the player: its state, the track, the times; then the bar and
/// beat with the time signature, and the tempo, as far as they are known.
pub proof fn lemma_player_line(
    a: AppView,
    ns: u64,
    cur: i32,
    total: i32,
    info: MidiInfo,
    bar: int,
    beat: int,
    bpm: i32,
)
    requires
        a.cur_info == Some(info),
        player::bar_beat_of(cur, info) == Some((bar, beat)),
        bpm >= 0,
    ensures
        ({
            let t = a.track_pieces(ns, Some((cur, total)));
            let times = a.times_of(ns, Some((cur, total)));
            let b = a.beat_pieces(Some((cur, total)), Some(bpm));
            &&& t.len() == 5 && t[0].text == ui::state_badge_of(a.state).0
            &&& a.now_playing is Some ==> t[2].text == (a.now_playing->0).file_name()
            &&& a.now_playing is None ==> t[2].text == "—"@
            &&& t[4].text == "["@ + ui::time_text(times.0) + " / "@ + ui::time_text(times.1) + "]"@
            &&& b.len() == 5
            &&& b[1].text == "♪ "@ + ascii::dec(bar as nat) + ":"@ + ascii::dec(beat as nat)
            &&& b[2].text == " "@ + ascii::dec(info.ts_num as nat) + "/"@ + ascii::dec(
                info.ts_den as nat,
            )
            &&& b[4].text == ascii::dec(bpm as nat) + " BPM"@
        }),
{
}

/// The rest of the line: the queue, the message and what is searched for, each
/// only where there is one.
pub proof fn lemma_notices(a: AppView)
    ensures
        ({
            let v = a.notice_pieces();
            &&& a.queue_badge() is None && a.message is None && a.search is None ==> v.len() == 0
            &&& a.queue_badge() is None && a.message is Some && a.search is None ==> v.len() == 2
                && v[1].text == a.message->0
            &&& a.queue_badge() is None && a.message is None && a.search is Some ==> v.len() == 2
                && v[1].text == "/"@ + a.search->0
            &&& a.queue_badge() is Some ==> v.len() >= 2 && v[1].text == a.queue_badge()->0
                && v[1].look == if a.queue_live() {
                Look::Lit(Tone::Magenta)
            } else {
                Look::Colour(Tone::DarkGray)
            }
        }),
{
}


} // verus!
