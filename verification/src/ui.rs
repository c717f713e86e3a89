//! What is written on the screen: the texts of the panels, the player bar, the
//! hints and the overlay.

use crate::app::{App, AppView, Panel, PlayState, PromptKind, Source};
use crate::ascii;
use crate::ascii::{dec_padded_text, dec_text};
use crate::browser;
use crate::browser::{Browser, BrowserView, Entry, EntryView};
use crate::calendar;
use crate::calendar::{fmt_age, fmt_stamp_at};
use crate::favourites;
use crate::history;
use crate::history::{Row, RowView};
use crate::midi::Length;
use crate::playlist;
use crate::playlist::is_playlist_name;
use crate::text::{chars_of, string_of};
use crate::vfs;
use crate::vfs::{same_opt, LocView, Location};
use vstd::prelude::*;
use vstd::string::*;

verus! {

// --- columns ----------------------------------------------------------------

/// `n` blanks.
pub open spec fn blanks(n: nat) -> Seq<char> {
    Seq::new(n, |i: int| ' ')
}

/// `s` cut (with an ellipsis) or padded on the right to `w` columns.
pub open spec fn fitted(s: Seq<char>, w: nat) -> Seq<char> {
    if w == 0 {
        seq![]
    } else if s.len() <= w {
        s + blanks((w - s.len()) as nat)
    } else {
        s.take(w - 1).push('…')
    }
}

/// `s` padded on the left to `w` columns.
pub open spec fn right_aligned(s: Seq<char>, w: nat) -> Seq<char> {
    if s.len() < w {
        blanks((w - s.len()) as nat) + s
    } else {
        s
    }
}

fn push_blanks(s: &mut String, n: usize)
    ensures
        final(s)@ == old(s)@ + blanks(n as nat),
{
    let ghost before = s@;
    let mut i: usize = 0;
    assert(before + blanks(0) =~= before);
    while i < n
        invariant
            i <= n,
            s@ == before + blanks(i as nat),
        decreases n - i,
    {
        s.push(' ');
        assert(s@ =~= before + blanks((i + 1) as nat));
        i = i + 1;
    }
}

/// Truncate (with an ellipsis) or right-pad `s` to exactly `w` display columns.
pub fn truncate_pad(s: &str, w: usize) -> (r: String)
    ensures
        r@ == fitted(s@, w as nat),
        r@.len() == w,
{
    let cs = chars_of(s);
    let n: usize = cs.len();
    if w == 0 {
        String::new()
    } else if n <= w {
        let mut r = string_of(&cs, 0, n);
        assert(r@ =~= s@);
        push_blanks(&mut r, w - n);
        r
    } else {
        let mut r = string_of(&cs, 0, w - 1);
        r.push('…');
        assert(r@ =~= s@.take(w - 1).push('…'));
        r
    }
}

fn align_right(s: &str, w: usize) -> (r: String)
    ensures
        r@ == right_aligned(s@, w as nat),
{
    let cs = chars_of(s);
    let n: usize = cs.len();
    let mut r = String::new();
    if n < w {
        push_blanks(&mut r, w - n);
    }
    r.append(s);
    assert(r@ =~= right_aligned(s@, w as nat));
    r
}

// --- sizes ------------------------------------------------------------------

/// `a / b` to the nearest whole number, a half to the even one.
pub open spec fn nearest_even(a: int, b: int) -> int {
    let q = a / b;
    let rest = 2 * (a % b);
    if rest < b || (rest == b && q % 2 == 0) {
        q
    } else {
        q + 1
    }
}

/// The spacing of the numbers that 53 binary digits can tell apart, at `n`.
pub open spec fn spacing(n: nat) -> nat
    decreases n,
{
    if n < 0x20_0000_0000_0000 {
        1
    } else {
        2 * spacing(n / 2)
    }
}

/// `n` to 53 binary digits.
pub open spec fn to_53_digits(n: nat) -> int {
    nearest_even(n as int, spacing(n) as int) * spacing(n)
}

/// The units of a size: how many bytes one is, and its letter.
pub open spec fn unit(n: int) -> (int, char) {
    if n < 0x400 {
        (1, 'B')
    } else if n < 0x10_0000 {
        (0x400, 'K')
    } else if n < 0x4000_0000 {
        (0x10_0000, 'M')
    } else if n < 0x100_0000_0000 {
        (0x4000_0000, 'G')
    } else {
        (0x100_0000_0000, 'T')
    }
}

/// The text of a size: whole bytes, then one decimal below ten of a larger
/// unit, and none from there on.
pub open spec fn size_text(n: u64) -> Seq<char> {
    let f = to_53_digits(n as nat);
    let (u, c) = unit(f);
    if u == 1 {
        ascii::dec(n as nat).push(c)
    } else if f < 10 * u {
        let tenths = nearest_even(10 * f, u);
        ascii::dec((tenths / 10) as nat).push('.') + ascii::dec((tenths % 10) as nat).push(c)
    } else {
        ascii::dec(nearest_even(f, u) as nat).push(c)
    }
}

fn round_even(a: u128, b: u128) -> (r: u128)
    requires
        0 < b <= 0x100_0000_0000,
        a <= 0x100_0000_0000_0000_0000,
    ensures
        r == nearest_even(a as int, b as int),
        r <= a + 1,
{
    let q: u128 = a / b;
    let rest: u128 = 2 * (a % b);
    proof {
        assert(a as int / b as int <= a) by (nonlinear_arith)
            requires
                a >= 0,
                b > 0,
        ;
    }
    if rest < b || (rest == b && q % 2 == 0) {
        q
    } else {
        q + 1
    }
}

proof fn lemma_spacing(n: nat)
    ensures
        spacing(n) >= 1,
        n < 0x20_0000_0000_0000 ==> spacing(n) == 1,
        n >= 0x20_0000_0000_0000 ==> spacing(n) * 0x10_0000_0000_0000 <= n,
    decreases n,
{
    if n >= 0x20_0000_0000_0000 {
        lemma_spacing(n / 2);
    }
}

fn spacing_of(n: u64) -> (r: u64)
    ensures
        r == spacing(n as nat),
        1 <= r <= 0x1000,
    decreases n,
{
    proof {
        lemma_spacing(n as nat);
    }
    if n < 0x20_0000_0000_0000 {
        1
    } else {
        2 * spacing_of(n / 2)
    }
}

fn to_double(n: u64) -> (r: u128)
    ensures
        r == to_53_digits(n as nat),
        r <= n + 0x1000,
{
    let sp: u64 = spacing_of(n);
    let q: u128 = round_even(n as u128, sp as u128);
    proof {
        let (a, b) = (n as int, sp as int);
        let d = a / b;
        assert(d * b <= a && 0 <= d) by (nonlinear_arith)
            requires
                d == a / b,
                a >= 0,
                b > 0,
        ;
        assert((d + 1) * b == d * b + b) by (nonlinear_arith);
        assert(q == d || q == d + 1);
        assert(0 <= q * b <= a + b);
    }
    q * sp as u128
}

/// Human-readable byte size (e.g. "6.4M", "275M").
pub fn human_size(n: u64) -> (r: String)
    ensures
        r@ == size_text(n),
{
    let f: u128 = to_double(n);
    let (u, c): (u128, char) = if f < 0x400 {
        (1, 'B')
    } else if f < 0x10_0000 {
        (0x400, 'K')
    } else if f < 0x4000_0000 {
        (0x10_0000, 'M')
    } else if f < 0x100_0000_0000 {
        (0x4000_0000, 'G')
    } else {
        (0x100_0000_0000, 'T')
    };
    if u == 1 {
        let mut s = dec_text(n);
        s.push(c);
        s
    } else if f < 10 * u {
        let tenths: u128 = round_even(10 * f, u);
        proof {
            lemma_few(10 * f as int, u as int, 100);
        }
        let mut s = dec_text((tenths / 10) as u64);
        s.push('.');
        let d = dec_text((tenths % 10) as u64);
        s.append(d.as_str());
        s.push(c);
        assert(s@ =~= size_text(n));
        s
    } else {
        proof {
            lemma_few(f as int, u as int, 0x1_0000_0001);
        }
        let w: u128 = round_even(f, u);
        let mut s = dec_text(w as u64);
        s.push(c);
        s
    }
}

proof fn lemma_few(a: int, b: int, n: int)
    requires
        0 <= a < n * b,
        b > 0,
    ensures
        0 <= nearest_even(a, b) <= n,
{
    assert(0 <= a / b < n) by (nonlinear_arith)
        requires
            0 <= a < n * b,
            b > 0,
    ;
}

// --- times ------------------------------------------------------------------

/// The text of a number of seconds: with the hours from one hour on; without,
/// the minutes are written with `width` digits or more.
pub open spec fn clock(s: int, width: nat) -> Seq<char> {
    let two = |n: int| ascii::dec_padded(n as nat, 2);
    if s >= 3600 {
        ascii::dec((s / 3600) as nat).push(':') + two((s % 3600) / 60).push(':') + two(s % 60)
    } else {
        ascii::dec_padded((s / 60) as nat, width).push(':') + two(s % 60)
    }
}

fn clock_text(s: u64, width: usize) -> (r: String)
    ensures
        r@ == clock(s as int, width as nat),
{
    let mut t;
    if s >= 3600 {
        t = dec_text(s / 3600);
        t.push(':');
        let m = dec_padded_text((s % 3600) / 60, 2);
        t.append(m.as_str());
    } else {
        t = dec_padded_text(s / 60, width);
    }
    t.push(':');
    let k = dec_padded_text(s % 60, 2);
    t.append(k.as_str());
    assert(t@ =~= clock(s as int, width as nat));
    t
}

/// A whole number of seconds that fits in 64 bits.
pub open spec fn seconds(n: int) -> int {
    if n <= u64::MAX {
        n
    } else {
        u64::MAX as int
    }
}

/// The text of a time in the player bar: mm:ss, or h:mm:ss past an hour.
pub open spec fn time_text(t: Length) -> Seq<char> {
    if t.num == 0 || t.den == 0 {
        "00:00"@
    } else {
        clock(seconds(t.num as int / t.den as int), 2)
    }
}

/// The text of a length in the file list: m:ss, or h:mm:ss past an hour, to the
/// nearest second; empty when it is not known.
pub open spec fn length_text(t: Length) -> Seq<char> {
    if t.num == 0 || t.den == 0 {
        seq![]
    } else {
        let whole = t.num as int / t.den as int;
        let up = if 2 * (t.num as int % t.den as int) >= t.den {
            1int
        } else {
            0
        };
        clock(seconds(whole + up), 1)
    }
}

pub fn fmt_time(t: Length) -> (r: String)
    ensures
        r@ == time_text(t),
{
    if t.num == 0 || t.den == 0 {
        return "00:00".to_owned();
    }
    let q: u128 = t.num / t.den as u128;
    let s: u64 = if q <= u64::MAX as u128 {
        q as u64
    } else {
        u64::MAX
    };
    clock_text(s, 2)
}

/// Duration label for the file list: m:ss, or h:mm:ss past an hour.
pub fn fmt_hms(t: Length) -> (r: String)
    ensures
        r@ == length_text(t),
{
    if t.num == 0 || t.den == 0 {
        return String::new();
    }
    let q: u128 = t.num / t.den as u128;
    let rest: u128 = 2 * (t.num % t.den as u128);
    let up: u64 = if rest >= t.den as u128 {
        1
    } else {
        0
    };
    let s: u64 = if q < u64::MAX as u128 {
        q as u64 + up
    } else {
        u64::MAX
    };
    clock_text(s, 1)
}

// --- the panels -------------------------------------------------------------

/// The title of a panel: what it lists, and where.
pub open spec fn panel_title_text(b: BrowserView, title: Seq<char>) -> Seq<char> {
    " "@ + title + " — "@ + b.dir.display() + " "@
}

/// The item count of a panel. While filtering it shows matches out of the
/// total.
pub open spec fn panel_count_text(b: BrowserView) -> Seq<char> {
    let n = browser::count_items(b.entries);
    if b.filter.len() > 0 {
        " "@ + ascii::dec(n) + " of "@ + ascii::dec(browser::count_items(b.all)) + " "@
    } else {
        " "@ + ascii::dec(n) + (if n == 1 {
            " item "@
        } else {
            " items "@
        })
    }
}

pub fn panel_title(b: &Browser, title: &str) -> (r: String)
    ensures
        r@ == panel_title_text(b@, title@),
{
    let mut s = " ".to_owned();
    s.append(title);
    s.append(" — ");
    let d = b.dir_display();
    s.append(d.as_str());
    s.append(" ");
    s
}

pub fn panel_count(b: &Browser) -> (r: String)
    ensures
        r@ == panel_count_text(b@),
{
    let n: usize = b.item_count();
    let mut s = " ".to_owned();
    let d = dec_text(n as u64);
    s.append(d.as_str());
    if b.is_filtered() {
        s.append(" of ");
        let t = dec_text(b.total_count() as u64);
        s.append(t.as_str());
        s.append(" ");
    } else if n == 1 {
        s.append(" item ");
    } else {
        s.append(" items ");
    }
    s
}

/// What kind of row an entry is.
#[derive(Clone, Copy, PartialEq, Eq, Structural, Debug)]
pub enum EntryKind {
    Parent,
    Dir,
    /// A playlist opens rather than plays.
    Playlist,
    File,
}

pub open spec fn kind_of(panel: Panel, e: EntryView) -> EntryKind {
    if e.is_parent {
        EntryKind::Parent
    } else if e.is_dir {
        EntryKind::Dir
    } else if panel == Panel::Midi && playlist::has_ext(e.name, playlist::playlist_exts()) {
        EntryKind::Playlist
    } else {
        EntryKind::File
    }
}

pub open spec fn icon_of(k: EntryKind) -> Seq<char> {
    match k {
        EntryKind::Parent => ".."@,
        EntryKind::Dir => "[+]"@,
        EntryKind::Playlist => " ≡ "@,
        EntryKind::File => "   "@,
    }
}

pub fn entry_kind(panel: Panel, e: &Entry) -> (r: EntryKind)
    ensures
        r == kind_of(panel, e@),
{
    if e.is_parent {
        EntryKind::Parent
    } else if e.is_dir {
        EntryKind::Dir
    } else if panel == Panel::Midi && is_playlist_name(e.name.as_str()) {
        EntryKind::Playlist
    } else {
        EntryKind::File
    }
}

pub fn entry_icon(k: EntryKind) -> (r: &'static str)
    ensures
        r@ == icon_of(k),
{
    match k {
        EntryKind::Parent => "..",
        EntryKind::Dir => "[+]",
        EntryKind::Playlist => " ≡ ",
        EntryKind::File => "   ",
    }
}

/// Right-hand column: archive/SoundFont size or MIDI duration. Archives are
/// shown as directories but carry a file size, rendered the same way as
/// SoundFont sizes; plain directories stay blank.
pub open spec fn right_text(panel: Panel, e: EntryView) -> Seq<char> {
    if e.is_dir {
        if e.size > 0 {
            size_text(e.size)
        } else {
            seq![]
        }
    } else {
        match panel {
            Panel::Sf2 => size_text(e.size),
            Panel::Midi => match e.length {
                Some(l) => length_text(l),
                None => seq![],
            },
        }
    }
}

pub fn entry_right(panel: Panel, e: &Entry) -> (r: String)
    ensures
        r@ == right_text(panel, e@),
{
    if e.is_dir {
        if e.size > 0 {
            human_size(e.size)
        } else {
            String::new()
        }
    } else {
        match panel {
            Panel::Sf2 => human_size(e.size),
            Panel::Midi => match e.length {
                Some(l) => fmt_hms(l),
                None => String::new(),
            },
        }
    }
}

impl AppView {
    /// True for the entry that is playing, or loaded.
    pub open spec fn is_current(self, loc: LocView) -> bool {
        vfs::opt_key(self.now_playing) == Some(loc.key()) || vfs::opt_key(self.soundfont) == Some(
            loc.key(),
        )
    }

    /// Two columns: what is playing, and the favourite star — solid when this
    /// exact pair is starred, hollow when the item is starred in some other
    /// pairing.
    pub open spec fn marker_of(self, panel: Panel, loc: LocView) -> Seq<char> {
        (if self.is_current(loc) {
            "♪"@
        } else {
            " "@
        }) + self.star_of(panel, loc)
    }
}

impl App {
    pub fn is_current(&self, loc: &Location) -> (r: bool)
        ensures
            r == self@.is_current(loc@),
    {
        let playing = match &self.now_playing {
            Some(p) => *p == *loc,
            None => false,
        };
        let loaded = match &self.soundfont {
            Some(p) => *p == *loc,
            None => false,
        };
        playing || loaded
    }

    pub fn entry_marker(&self, panel: Panel, loc: &Location) -> (r: String)
        ensures
            r@ == self@.marker_of(panel, loc@),
    {
        let mut s = if self.is_current(loc) {
            "♪".to_owned()
        } else {
            " ".to_owned()
        };
        s.append(self.star_for(panel, loc));
        s
    }
}

/// The name field of a list row, before a right-hand column: whatever the
/// row's width leaves beside the two columns of marks, that column and a gap.
pub open spec fn row_field(
    icon: Seq<char>,
    name: Seq<char>,
    right: Seq<char>,
    inner_w: int,
) -> Seq<char> {
    let left = icon + " "@ + name;
    if right.len() == 0 {
        left
    } else {
        let avail = inner_w - (3 + right.len());
        fitted(
            left,
            (if avail > 0 {
                avail
            } else {
                0
            }) as nat,
        )
    }
}

/// Build the "icon name" left field of one list row. Columns stay aligned
/// because no highlight symbol shifts the rows.
pub fn row_line(icon: &str, name: &str, right: &str, inner_w: usize) -> (r: String)
    ensures
        r@ == row_field(icon@, name@, right@, inner_w as int),
{
    let mut left = icon.to_owned();
    left.append(" ");
    left.append(name);
    let n: usize = chars_of(right).len();
    if n == 0 {
        return left;
    }
    let avail: usize = if inner_w > 3 && inner_w - 3 > n {
        inner_w - 3 - n
    } else {
        0
    };
    truncate_pad(left.as_str(), avail)
}

// --- the player bar ---------------------------------------------------------

/// A colour of the screen.
#[derive(Clone, Copy, PartialEq, Eq, Structural, Debug)]
pub enum Tone {
    White,
    Gray,
    DarkGray,
    Red,
    Yellow,
    Green,
    Cyan,
    Blue,
    Magenta,
}

/// The badge of a play state, and its colour.
pub open spec fn state_badge_of(s: PlayState) -> (Seq<char>, Tone) {
    match s {
        PlayState::Playing => ("▶ PLAY "@, Tone::Green),
        PlayState::Paused => ("⏸ PAUSE"@, Tone::Yellow),
        PlayState::Stopped => ("⏹ STOP "@, Tone::Red),
    }
}

pub fn state_badge(s: PlayState) -> (r: (&'static str, Tone))
    ensures
        (r.0@, r.1) == state_badge_of(s),
{
    match s {
        PlayState::Playing => ("▶ PLAY ", Tone::Green),
        PlayState::Paused => ("⏸ PAUSE", Tone::Yellow),
        PlayState::Stopped => ("⏹ STOP ", Tone::Red),
    }
}

/// The progress bar of a play state: empty while nothing is on.
pub open spec fn gauge_of(state: PlayState, progress: (u32, u32), state_col: Tone) -> (
    (u32, u32),
    Tone,
) {
    if state == PlayState::Stopped {
        ((0, 1), Tone::DarkGray)
    } else {
        (progress, state_col)
    }
}

/// Ratio and colour for the playback progress bar. When stopped the bar is
/// reset to empty (the player keeps reporting its last tick, so the progress
/// is not trusted here) and shown in a neutral colour rather than recoloured
/// red.
pub fn gauge_appearance(state: PlayState, progress: (u32, u32), state_col: Tone) -> (r: (
    (u32, u32),
    Tone,
))
    ensures
        r == gauge_of(state, progress, state_col),
{
    match state {
        PlayState::Stopped => ((0, 1), Tone::DarkGray),
        _ => (progress, state_col),
    }
}

/// The name of a location, or a stand-in.
pub open spec fn name_or(l: Option<LocView>, other: Seq<char>) -> Seq<char> {
    match l {
        Some(x) => x.file_name(),
        None => other,
    }
}

fn name_or_text(l: &Option<Location>, other: &str) -> (r: String)
    ensures
        r@ == name_or(vfs::opt_view(*l), other@),
{
    match l {
        Some(x) => x.file_name(),
        None => other.to_owned(),
    }
}

pub fn name_of(loc: &Option<Location>) -> (r: String)
    ensures
        r@ == name_or(vfs::opt_view(*loc), "—"@),
{
    name_or_text(loc, "—")
}

/// The label of the list that is the queue.
pub open spec fn queue_label(s: Source) -> Seq<char> {
    match s {
        Source::History => "Hist"@,
        Source::Favourites => "Favs"@,
        Source::Playlist => "List"@,
    }
}

impl AppView {
    /// How far along the queue is, while a list is the queue.
    pub open spec fn queue_badge(self) -> Option<Seq<char>> {
        match self.queue_position() {
            Some((s, at, n)) => Some(
                " "@ + queue_label(s) + " "@ + ascii::dec(at as nat) + "/"@ + ascii::dec(n as nat)
                    + " "@,
            ),
            None => None,
        }
    }

    /// The font in the player bar.
    pub open spec fn font_label(self) -> Seq<char> {
        "SF: "@ + name_or(self.soundfont, "none"@)
    }

    /// The volume in the player bar.
    pub open spec fn volume_label(self) -> Seq<char> {
        "Vol "@ + right_aligned(ascii::dec(self.volume as nat), 3) + "%"@
    }
}

impl App {
    /// While a list is the queue, how far along it is.
    pub fn queue_badge(&self) -> (r: Option<String>)
        requires
            self@.wf(),
        ensures
            history::opt_text(r) == self@.queue_badge(),
    {
        match self.queue_position() {
            Some((source, at, n)) => {
                let mut s = " ".to_owned();
                s.append(
                    match source {
                        Source::History => "Hist",
                        Source::Favourites => "Favs",
                        Source::Playlist => "List",
                    },
                );
                s.append(" ");
                let a = dec_text(at as u64);
                s.append(a.as_str());
                s.append("/");
                let b = dec_text(n as u64);
                s.append(b.as_str());
                s.append(" ");
                Some(s)
            },
            None => None,
        }
    }

    /// The track in the player bar.
    pub fn track_label(&self) -> (r: String)
        ensures
            r@ == name_or(self@.now_playing, "—"@),
    {
        name_or_text(&self.now_playing, "—")
    }

    pub fn font_label(&self) -> (r: String)
        ensures
            r@ == self@.font_label(),
    {
        let mut s = "SF: ".to_owned();
        let n = name_or_text(&self.soundfont, "none");
        s.append(n.as_str());
        s
    }

    pub fn volume_label(&self) -> (r: String)
        ensures
            r@ == self@.volume_label(),
    {
        let mut s = "Vol ".to_owned();
        let d = dec_text(self.volume as u64);
        let v = align_right(d.as_str(), 3);
        s.append(v.as_str());
        s.append("%");
        s
    }
}

/// The time played and the total.
pub open spec fn times_text(elapsed: Length, total: Length) -> Seq<char> {
    "["@ + time_text(elapsed) + " / "@ + time_text(total) + "]"@
}

pub fn times_label(elapsed: Length, total: Length) -> (r: String)
    ensures
        r@ == times_text(elapsed, total),
{
    let mut s = "[".to_owned();
    let a = fmt_time(elapsed);
    s.append(a.as_str());
    s.append(" / ");
    let b = fmt_time(total);
    s.append(b.as_str());
    s.append("]");
    s
}

/// The bar and the beat being played.
pub fn bar_beat_label(at: (u32, u32)) -> (r: String)
    ensures
        r@ == "♪ "@ + ascii::dec(at.0 as nat) + ":"@ + ascii::dec(at.1 as nat),
{
    let mut s = "♪ ".to_owned();
    let a = dec_text(at.0 as u64);
    s.append(a.as_str());
    s.append(":");
    let b = dec_text(at.1 as u64);
    s.append(b.as_str());
    s
}

/// The time signature.
pub fn signature_label(ts: (u8, u8)) -> (r: String)
    ensures
        r@ == " "@ + ascii::dec(ts.0 as nat) + "/"@ + ascii::dec(ts.1 as nat),
{
    let mut s = " ".to_owned();
    let a = dec_text(ts.0 as u64);
    s.append(a.as_str());
    s.append("/");
    let b = dec_text(ts.1 as u64);
    s.append(b.as_str());
    s
}

// --- the hints --------------------------------------------------------------

/// The label of the prompt, and the keys it knows.
pub open spec fn prompt_words(k: PromptKind) -> (Seq<char>, Seq<char>) {
    match k {
        PromptKind::Goto => (
            "GO: "@,
            "   (Tab: complete  Alt+⌫: up  Enter: go  Esc: cancel)"@,
        ),
        PromptKind::SavePlaylist => (
            "SAVE PLAYLIST: "@,
            "   (Tab: complete  Enter: save  Esc: cancel)"@,
        ),
    }
}

pub fn prompt_labels(k: PromptKind) -> (r: (&'static str, &'static str))
    ensures
        (r.0@, r.1@) == prompt_words(k),
{
    match k {
        PromptKind::Goto => ("GO: ", "   (Tab: complete  Alt+⌫: up  Enter: go  Esc: cancel)"),
        PromptKind::SavePlaylist => (
            "SAVE PLAYLIST: ",
            "   (Tab: complete  Enter: save  Esc: cancel)",
        ),
    }
}

impl AppView {
    /// The key hints below the player bar. The overlays leave this line in
    /// view; it says which keys still reach the player from inside one.
    pub open spec fn hints(self) -> Seq<char> {
        if self.overlay is Some {
            "Enter play  Space pause  s stop  ←/→ seek  n next-mode  r repeat  </> vol  Esc close — the current track plays out"@
        } else {
            "Tab panels  Enter play/load  Space pause  s stop  ←/→ seek  n next-mode  r repeat  </> vol  i go  G playing  R history  f star  F favs  P playlist  a add  / filter  h help  q quit"@
        }
    }
}

impl App {
    pub fn key_hints(&self) -> (r: &'static str)
        ensures
            r@ == self@.hints(),
    {
        if self.overlay.is_some() {
            "Enter play  Space pause  s stop  ←/→ seek  n next-mode  r repeat  </> vol  Esc close — the current track plays out"
        } else {
            "Tab panels  Enter play/load  Space pause  s stop  ←/→ seek  n next-mode  r repeat  </> vol  i go  G playing  R history  f star  F favs  P playlist  a add  / filter  h help  q quit"
        }
    }
}

// --- the overlay ------------------------------------------------------------

/// Where a popup is: its corner and its size.
#[derive(Clone, Copy, PartialEq, Eq, Structural, Debug)]
pub struct Place {
    pub x: u16,
    pub y: u16,
    pub width: u16,
    pub height: u16,
}

/// `a - b`, not below zero.
pub open spec fn less(a: int, b: int) -> int {
    if a > b {
        a - b
    } else {
        0
    }
}

pub open spec fn smaller(a: int, b: int) -> int {
    if a < b {
        a
    } else {
        b
    }
}

pub open spec fn larger(a: int, b: int) -> int {
    if a > b {
        a
    } else {
        b
    }
}

/// A popup of a size in the middle of an area.
pub open spec fn centred(area: Place, w: int, h: int) -> Place {
    Place {
        x: (area.x + less(area.width as int, w) / 2) as u16,
        y: (area.y + less(area.height as int, h) / 2) as u16,
        width: w as u16,
        height: h as u16,
    }
}

/// The overlay over the panels: tall enough for the rows it has (headings, list,
/// detail and borders), without covering more of the panels than it needs to —
/// and never taller than the space they have, however small that is.
pub open spec fn overlay_box(area: Place, rows: nat) -> Place {
    let max_h = less(area.height as int, 2);
    centred(
        area,
        smaller(less(area.width as int, 4), 110),
        smaller(larger(rows as int + 5, smaller(6, max_h)), max_h),
    )
}

fn centre(area: Place, w: u16, h: u16) -> (r: Place)
    requires
        area.x + area.width <= u16::MAX,
        area.y + area.height <= u16::MAX,
    ensures
        r == centred(area, w as int, h as int),
{
    let dx: u16 = if area.width > w {
        (area.width - w) / 2
    } else {
        0
    };
    let dy: u16 = if area.height > h {
        (area.height - h) / 2
    } else {
        0
    };
    Place { x: area.x + dx, y: area.y + dy, width: w, height: h }
}

pub fn overlay_place(area: Place, rows: usize) -> (r: Place)
    requires
        area.x + area.width <= u16::MAX,
        area.y + area.height <= u16::MAX,
    ensures
        r == overlay_box(area, rows as nat),
{
    let w: u16 = if area.width <= 4 {
        0
    } else if area.width - 4 < 110 {
        area.width - 4
    } else {
        110
    };
    let max_h: u16 = if area.height > 2 {
        area.height - 2
    } else {
        0
    };
    let h: u16 = if rows >= 65530 || rows as u16 + 5 >= max_h {
        max_h
    } else if rows as u16 + 5 > 6 {
        rows as u16 + 5
    } else if max_h < 6 {
        max_h
    } else {
        6
    };
    centre(area, w, h)
}

/// The help over the screen: 60 columns, and as high as its text.
pub open spec fn help_box(area: Place, lines: nat) -> Place {
    centred(
        area,
        smaller(60, less(area.width as int, 2)),
        smaller(lines as int + 2, less(area.height as int, 2)),
    )
}

pub fn help_place(area: Place, lines: usize) -> (r: Place)
    requires
        area.x + area.width <= u16::MAX,
        area.y + area.height <= u16::MAX,
    ensures
        r == help_box(area, lines as nat),
{
    let w: u16 = if area.width <= 2 {
        0
    } else if area.width - 2 < 60 {
        area.width - 2
    } else {
        60
    };
    let max_h: u16 = if area.height > 2 {
        area.height - 2
    } else {
        0
    };
    let h: u16 = if lines >= 65533 || lines as u16 + 2 >= max_h {
        max_h
    } else {
        lines as u16 + 2
    };
    centre(area, w, h)
}

/// What a place covers lies within the area it was made for.
pub proof fn lemma_popup_inside(area: Place, rows: nat)
    requires
        area.x + area.width <= u16::MAX,
        area.y + area.height <= u16::MAX,
    ensures
        ({
            let p = overlay_box(area, rows);
            area.x <= p.x && p.x + p.width <= area.x + area.width && area.y <= p.y && p.y
                + p.height <= area.y + area.height
        }),
        ({
            let p = help_box(area, rows);
            area.x <= p.x && p.x + p.width <= area.x + area.width && area.y <= p.y && p.y
                + p.height <= area.y + area.height
        }),
{
}

/// The columns of the overlay table in `width` columns.
pub open spec fn columns(width: int, source: Source) -> (int, int, int, int) {
    let first = if source == Source::Playlist {
        6int
    } else {
        18
    };
    let rest = less(width, first + 9);
    (first, rest / 2, rest - rest / 2, 5)
}

/// Column widths of the overlay table: timestamp (or item number), track,
/// soundfont, plays.
pub fn history_columns(width: u16, source: Source) -> (r: (usize, usize, usize, usize))
    ensures
        (r.0 as int, r.1 as int, r.2 as int, r.3 as int) == columns(width as int, source),
{
    let stamp: usize = match source {
        Source::Playlist => 6,
        _ => 18,
    };
    let taken: usize = stamp + 9;
    let rest: usize = if width as usize > taken {
        width as usize - taken
    } else {
        0
    };
    let track: usize = rest / 2;
    (stamp, track, rest - track, 5)
}

/// One table row, padded into the given columns.
pub open spec fn table_row(
    when: Seq<char>,
    track: Seq<char>,
    font: Seq<char>,
    plays: Seq<char>,
    cols: (usize, usize, usize, usize),
) -> Seq<char> {
    fitted(when, cols.0 as nat) + " "@ + fitted(track, cols.1 as nat) + " "@ + fitted(
        font,
        cols.2 as nat,
    ) + " "@ + right_aligned(plays, cols.3 as nat)
}

pub fn history_row_text(
    when: &str,
    track: &str,
    font: &str,
    plays: &str,
    cols: (usize, usize, usize, usize),
) -> (r: String)
    ensures
        r@ == table_row(when@, track@, font@, plays@, cols),
{
    let mut s = truncate_pad(when, cols.0);
    s.append(" ");
    let t = truncate_pad(track, cols.1);
    s.append(t.as_str());
    s.append(" ");
    let f = truncate_pad(font, cols.2);
    s.append(f.as_str());
    s.append(" ");
    let p = align_right(plays, cols.3);
    s.append(p.as_str());
    s
}

/// The heading of the first column.
pub fn when_heading(source: Source) -> (r: &'static str)
    ensures
        r@ == (match source {
            Source::History => "when"@,
            Source::Favourites => "starred"@,
            Source::Playlist => "     #"@,
        }),
{
    match source {
        Source::History => "when",
        Source::Favourites => "starred",
        Source::Playlist => "     #",
    }
}

/// The keys of an overlay.
pub fn overlay_hint(source: Source) -> (r: &'static str)
    ensures
        r@ == (match source {
            Source::History => " Enter play from here · Tab view · f star · G reveal · d forget · D erase all · / filter "@,
            Source::Favourites => " Enter play from here · ⇧↑↓ move · d remove · G reveal · / filter "@,
            Source::Playlist => " Enter play from here · ⇧↑↓ move · S set font · x clear font · d remove · w save · W save as · / filter "@,
        }),
{
    match source {
        Source::History => {
            " Enter play from here · Tab view · f star · G reveal · d forget · D erase all · / filter "
        },
        Source::Favourites => " Enter play from here · ⇧↑↓ move · d remove · G reveal · / filter ",
        Source::Playlist => {
            " Enter play from here · ⇧↑↓ move · S set font · x clear font · d remove · w save · W save as · / filter "
        },
    }
}

/// What an overlay without a row says.
pub open spec fn nothing_text(source: Source) -> Seq<char> {
    match source {
        Source::History => "  nothing played yet — press Enter on a MIDI file to start"@,
        Source::Favourites => "  nothing starred yet — press f while a track is playing"@,
        Source::Playlist => "  empty — press a on a MIDI file to add it, A to add it with the loaded SoundFont"@,
    }
}

pub fn nothing_line(source: Source) -> (r: &'static str)
    ensures
        r@ == nothing_text(source),
{
    match source {
        Source::History => "  nothing played yet — press Enter on a MIDI file to start",
        Source::Favourites => "  nothing starred yet — press f while a track is playing",
        Source::Playlist => {
            "  empty — press a on a MIDI file to add it, A to add it with the loaded SoundFont"
        },
    }
}

impl AppView {
    /// How many entries the store of an overlay has.
    pub open spec fn store_len(self, source: Source) -> nat {
        match source {
            Source::History => self.history.entries.len(),
            Source::Favourites => self.favs.entries.len(),
            Source::Playlist => self.playlist.items.len(),
        }
    }

    /// The heading of the overlay.
    pub open spec fn heading(self, source: Source, view: history::View) -> Seq<char> {
        match source {
            Source::History => "History — "@ + (match view {
                history::View::Pairs => "recent"@,
                history::View::Tracks => "tracks"@,
                history::View::Fonts => "soundfonts"@,
            }),
            Source::Favourites => "Favourites"@,
            Source::Playlist => "Playlist — "@ + self.playlist.name(),
        }
    }

    /// The title of the overlay. While filtering the count reads "matches of
    /// total", as the panels do. Saving the playlist is explicit, so it is said
    /// when there is something to save.
    pub open spec fn overlay_title(self) -> Option<Seq<char>> {
        match self.overlay {
            Some(o) => Some(
                " "@ + self.heading(o.source, o.view) + " · "@ + (if o.filtering || o.filter.len()
                    > 0 {
                    "/"@ + o.filter + " · "@ + ascii::dec(o.rows.len()) + " of "@ + ascii::dec(
                        self.store_len(o.source),
                    )
                } else {
                    ascii::dec(o.rows.len())
                }) + (if o.source == Source::Playlist && self.playlist.dirty {
                    " · modified "@
                } else {
                    " "@
                }),
            ),
            None => None,
        }
    }

    /// True for the row of the overlay that is playing. A playlist may hold the
    /// same pair twice, so its playing row is the one at the queue's position,
    /// not every row that matches what is heard.
    pub open spec fn row_playing(self, source: Source, r: RowView) -> bool {
        !r.gone && if source == Source::Playlist {
            let at = match self.queue_position() {
                Some((Source::Playlist, p, _)) => Some(p - 1),
                _ => None,
            };
            at == if r.idxs.len() > 0 {
                Some(r.idxs[0] as int)
            } else {
                None
            }
        } else {
            vfs::opt_key(r.midi) == vfs::opt_key(self.now_playing) && vfs::opt_key(r.soundfont)
                == vfs::opt_key(self.soundfont)
        }
    }

    /// True for a row whose pair is starred; a playlist item without a font
    /// through the font it plays through.
    pub open spec fn row_is_starred(self, source: Source, r: RowView) -> bool {
        let sf = if source == Source::Playlist && r.soundfont is None {
            self.user_font
        } else {
            r.soundfont
        };
        r.midi matches Some(m) && sf matches Some(f) && favourites::has_pair(
            self.favs.entries,
            m,
            f,
        )
    }

    /// Two mark columns: gone, then the row's own state. Every favourite is
    /// starred by definition, so there that slot shows what is playing instead.
    pub open spec fn row_mark(self, source: Source, r: RowView) -> Seq<char> {
        (if r.gone {
            "!"@
        } else {
            " "@
        }) + (if source != Source::History && self.row_playing(source, r) {
            "♪"@
        } else if source != Source::Favourites && self.row_is_starred(source, r) {
            "★"@
        } else {
            " "@
        })
    }

    /// A row of the overlay: its marks with the time it was played (or starred),
    /// or its number in the playlist, then the names and how often it was
    /// played. A starred pair that has never been played has no count.
    pub open spec fn row_text(
        self,
        source: Source,
        r: RowView,
        offset: int,
        cols: (usize, usize, usize, usize),
    ) -> Seq<char> {
        table_row(
            self.row_mark(source, r) + if source == Source::Playlist {
                right_aligned(
                    if r.idxs.len() > 0 {
                        ascii::dec((r.idxs[0] + 1) as nat)
                    } else {
                        seq![]
                    },
                    4,
                )
            } else {
                calendar::stamp_at(r.when, offset, false)
            },
            name_or(r.midi, "—"@),
            if source == Source::Playlist && r.soundfont is None {
                "(your font)"@
            } else {
                name_or(r.soundfont, "—"@)
            },
            if r.plays == 0 {
                seq![]
            } else {
                ascii::dec(r.plays as nat).push('x')
            },
            cols,
        )
    }

    /// The full locations of the selected row, each with its label and a remark.
    pub open spec fn details(self, now: u64) -> Option<
        ((Option<LocView>, Seq<char>), (Option<LocView>, Seq<char>)),
    > {
        match self.overlay_row() {
            Some(r) => Some(
                if self.overlay_source() == Some(Source::Playlist) {
                    (
                        (r.midi, seq![]),
                        match (r.soundfont, self.user_font) {
                            (Some(_), _) => (r.soundfont, seq![]),
                            (None, Some(_)) => (self.user_font, "your font"@),
                            (None, None) => (None, "your font — none loaded yet"@),
                        },
                    )
                } else {
                    (
                        (
                            r.midi,
                            calendar::age_text(
                                if now >= r.when {
                                    now - r.when
                                } else {
                                    0
                                },
                            ),
                        ),
                        (r.soundfont, seq![]),
                    )
                },
            ),
            None => None,
        }
    }
}

impl App {
    /// The title of the open overlay.
    pub fn overlay_title(&self) -> (r: Option<String>)
        ensures
            history::opt_text(r) == self@.overlay_title(),
    {
        match &self.overlay {
            Some(o) => {
                let mut s = " ".to_owned();
                match o.source {
                    Source::History => {
                        let mut h = "History — ".to_owned();
                        h.append(o.view.title());
                        s.append(h.as_str());
                    },
                    Source::Favourites => s.append("Favourites"),
                    Source::Playlist => {
                        let mut h = "Playlist — ".to_owned();
                        let n = self.playlist.name();
                        h.append(n.as_str());
                        s.append(h.as_str());
                    },
                }
                s.append(" · ");
                let count = dec_text(o.rows.len() as u64);
                if o.filtering || chars_of(o.filter.as_str()).len() > 0 {
                    let mut f = "/".to_owned();
                    f.append(o.filter.as_str());
                    f.append(" · ");
                    f.append(count.as_str());
                    f.append(" of ");
                    let total: usize = match o.source {
                        Source::History => self.history.len(),
                        Source::Favourites => self.favs.len(),
                        Source::Playlist => self.playlist.len(),
                    };
                    let t = dec_text(total as u64);
                    f.append(t.as_str());
                    s.append(f.as_str());
                } else {
                    s.append(count.as_str());
                }
                if o.source == Source::Playlist && self.playlist.is_dirty() {
                    s.append(" · modified ");
                } else {
                    s.append(" ");
                }
                Some(s)
            },
            None => None,
        }
    }

    pub fn row_playing(&self, source: Source, r: &Row) -> (x: bool)
        requires
            self@.wf(),
        ensures
            x == self@.row_playing(source, r@),
    {
        if r.gone {
            return false;
        }
        match source {
            Source::Playlist => {
                let at: Option<usize> = match self.queue_position() {
                    Some((Source::Playlist, p, _)) => Some(p - 1),
                    _ => None,
                };
                match at {
                    Some(i) => r.idxs.len() > 0 && r.idxs[0] == i,
                    None => r.idxs.len() == 0,
                }
            },
            _ => same_opt(&r.midi, &self.now_playing) && same_opt(&r.soundfont, &self.soundfont),
        }
    }

    fn row_is_starred(&self, source: Source, r: &Row) -> (x: bool)
        ensures
            x == self@.row_is_starred(source, r@),
    {
        let font = match &r.soundfont {
            Some(sf) => Some(sf),
            None => if source == Source::Playlist {
                match &self.user_font {
                    Some(sf) => Some(sf),
                    None => None,
                }
            } else {
                None
            },
        };
        match (&r.midi, font) {
            (Some(m), Some(sf)) => self.favs.is_pair(m, sf),
            _ => false,
        }
    }

    fn row_mark(&self, source: Source, r: &Row) -> (x: String)
        requires
            self@.wf(),
        ensures
            x@ == self@.row_mark(source, r@),
    {
        let mut s = if r.gone {
            "!".to_owned()
        } else {
            " ".to_owned()
        };
        if source != Source::History && self.row_playing(source, r) {
            s.append("♪");
        } else if source != Source::Favourites && self.row_is_starred(source, r) {
            s.append("★");
        } else {
            s.append(" ");
        }
        s
    }

    /// One row of the overlay's table. `offset` is the local offset from UTC at
    /// the row's time, in seconds.
    pub fn overlay_row_text(
        &self,
        source: Source,
        r: &Row,
        offset: i64,
        cols: (usize, usize, usize, usize),
    ) -> (x: String)
        requires
            self@.wf(),
            r.idxs@.len() > 0 ==> r.idxs@[0] < usize::MAX,
        ensures
            x@ == self@.row_text(source, r@, offset as int, cols),
    {
        let mut first = self.row_mark(source, r);
        match source {
            Source::Playlist => {
                let n = if r.idxs.len() > 0 {
                    dec_text(r.idxs[0] as u64 + 1)
                } else {
                    String::new()
                };
                let a = align_right(n.as_str(), 4);
                first.append(a.as_str());
            },
            _ => {
                let t = fmt_stamp_at(r.when, offset, false);
                first.append(t.as_str());
            },
        }
        let track = name_of(&r.midi);
        let font = if source == Source::Playlist && r.soundfont.is_none() {
            "(your font)".to_owned()
        } else {
            name_of(&r.soundfont)
        };
        let plays = if r.plays == 0 {
            String::new()
        } else {
            let mut p = dec_text(r.plays as u64);
            p.push('x');
            p
        };
        history_row_text(first.as_str(), track.as_str(), font.as_str(), plays.as_str(), cols)
    }

    /// The full locations of the selected row, which the columns can only show
    /// the names of: the track's, then the font's, each with a remark.
    pub fn overlay_details(&self, now: u64) -> (x: Option<
        ((Option<Location>, String), (Option<Location>, String)),
    >)
        ensures
            match self@.details(now) {
                Some((t, f)) => x matches Some(y) && vfs::opt_view(y.0.0) == t.0 && y.0.1@ == t.1
                    && vfs::opt_view(y.1.0) == f.0 && y.1.1@ == f.1,
                None => x is None,
            },
    {
        let (source, r) = match &self.overlay {
            Some(o) => match o.selected() {
                Some(r) => (o.source, r),
                None => {
                    return None;
                },
            },
            None => {
                return None;
            },
        };
        let midi = vfs::clone_loc(&r.midi);
        let font = vfs::clone_loc(&r.soundfont);
        match source {
            Source::Playlist => {
                let f = if font.is_some() {
                    (font, String::new())
                } else if self.user_font.is_some() {
                    (vfs::clone_loc(&self.user_font), "your font".to_owned())
                } else {
                    (None, "your font — none loaded yet".to_owned())
                };
                Some(((midi, String::new()), f))
            },
            _ => Some(((midi, fmt_age(now, r.when)), (font, String::new()))),
        }
    }
}

} // verus!
