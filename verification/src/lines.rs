//! The lines of the screen: texts with the looks they are drawn in.

use crate::app::{App, AppView, Panel, Source};
use crate::ascii;
use crate::ascii::dec_text;
use crate::browser::{Entry, EntryView};
use crate::favourites;
use crate::history::{Row, RowView};
use crate::player;
use crate::ui;
use crate::ui::{
    bar_beat_label, entry_icon, entry_kind, entry_right, nothing_line, prompt_labels, row_line,
    signature_label, state_badge, times_label, EntryKind, Tone,
};
use crate::vfs;
use crate::vfs::{LocView, Location};
use vstd::prelude::*;
use vstd::string::*;

verus! {

/// How a text is drawn.
#[derive(Clone, Copy, PartialEq, Eq, Structural, Debug)]
pub enum Look {
    /// As the terminal has it.
    Raw,
    Colour(Tone),
    Bold(Tone),
    /// Black on the colour.
    Over(Tone),
    /// Black on the colour, bold: a badge that is lit.
    Lit(Tone),
}

/// A piece of a line.
#[derive(Debug)]
pub struct Piece {
    pub text: String,
    pub look: Look,
}

/// A piece of a line, as a text.
#[verifier::ext_equal]
pub struct PieceView {
    pub text: Seq<char>,
    pub look: Look,
}

impl View for Piece {
    type V = PieceView;

    open spec fn view(&self) -> PieceView {
        PieceView { text: self.text@, look: self.look }
    }
}

/// The pieces of a line.
pub open spec fn pieces(v: Seq<Piece>) -> Seq<PieceView> {
    v.map_values(|p: Piece| p@)
}

pub open spec fn piece(text: Seq<char>, look: Look) -> PieceView {
    PieceView { text, look }
}

fn put(out: &mut Vec<Piece>, text: String, look: Look)
    ensures
        pieces(final(out)@) == pieces(old(out)@).push(piece(text@, look)),
{
    let ghost before = pieces(out@);
    out.push(Piece { text, look });
    assert(pieces(out@) =~= before.push(piece(text@, look)));
}

fn put_str(out: &mut Vec<Piece>, text: &str, look: Look)
    ensures
        pieces(final(out)@) == pieces(old(out)@).push(piece(text@, look)),
{
    put(out, text.to_owned(), look);
}

// --- the panels -------------------------------------------------------------

/// The look of a row's name: by what it is, and green when it is playing or
/// loaded.
pub open spec fn entry_look(kind: EntryKind, current: bool) -> Look {
    if current {
        Look::Bold(Tone::Green)
    } else {
        match kind {
            EntryKind::Parent => Look::Colour(Tone::Yellow),
            EntryKind::Dir => Look::Bold(Tone::Blue),
            EntryKind::Playlist => Look::Colour(Tone::Magenta),
            EntryKind::File => Look::Colour(Tone::White),
        }
    }
}

impl AppView {
    /// A row of a panel of `inner_w` columns: the marks, the name, and a
    /// right-hand column where there is one.
    pub open spec fn panel_row(self, panel: Panel, e: EntryView, inner_w: int) -> Seq<PieceView> {
        let kind = ui::kind_of(panel, e);
        let right = ui::right_text(panel, e);
        seq![
            piece(self.marker_of(panel, e.loc), Look::Raw),
            piece(
                ui::row_field(ui::icon_of(kind), e.name, right, inner_w),
                entry_look(kind, self.is_current(e.loc)),
            ),
        ] + if right.len() > 0 {
            seq![piece(" "@, Look::Raw), piece(right, Look::Colour(Tone::DarkGray))]
        } else {
            seq![]
        }
    }
}

fn look_of(kind: EntryKind, current: bool) -> (r: Look)
    ensures
        r == entry_look(kind, current),
{
    if current {
        Look::Bold(Tone::Green)
    } else {
        match kind {
            EntryKind::Parent => Look::Colour(Tone::Yellow),
            EntryKind::Dir => Look::Bold(Tone::Blue),
            EntryKind::Playlist => Look::Colour(Tone::Magenta),
            EntryKind::File => Look::Colour(Tone::White),
        }
    }
}

impl App {
    /// One row of a panel.
    pub fn panel_row(&self, panel: Panel, e: &Entry, inner_w: usize) -> (r: Vec<Piece>)
        ensures
            pieces(r@) == self@.panel_row(panel, e@, inner_w as int),
    {
        let kind = entry_kind(panel, e);
        let right = entry_right(panel, e);
        let left = row_line(entry_icon(kind), e.name.as_str(), right.as_str(), inner_w);
        let look = look_of(kind, self.is_current(&e.loc));
        let mut out: Vec<Piece> = Vec::new();
        put(&mut out, self.entry_marker(panel, &e.loc), Look::Raw);
        put(&mut out, left, look);
        let ghost first = pieces(out@);
        if right.as_str().unicode_len() > 0 {
            put_str(&mut out, " ", Look::Raw);
            put(&mut out, right, Look::Colour(Tone::DarkGray));
        }
        assert(pieces(out@) =~= self@.panel_row(panel, e@, inner_w as int));
        out
    }
}

// --- the player bar ---------------------------------------------------------

/// A number with its sign.
pub open spec fn signed(n: int) -> Seq<char> {
    if n < 0 {
        "-"@ + ascii::dec((-n) as nat)
    } else {
        ascii::dec(n as nat)
    }
}

fn signed_text(n: i32) -> (r: String)
    ensures
        r@ == signed(n as int),
{
    if n < 0 {
        let mut s = "-".to_owned();
        let d = dec_text((-(n as i64)) as u64);
        s.append(d.as_str());
        s
    } else {
        dec_text(n as u64)
    }
}

/// The badge of a mode: lit when it is on, dim when it is off.
pub open spec fn mode_look(on: bool) -> Look {
    if on {
        Look::Lit(Tone::Green)
    } else {
        Look::Colour(Tone::DarkGray)
    }
}

fn look_of_mode(on: bool) -> (r: Look)
    ensures
        r == mode_look(on),
{
    if on {
        Look::Lit(Tone::Green)
    } else {
        Look::Colour(Tone::DarkGray)
    }
}

impl AppView {
    /// The state, the track and its times.
    pub open spec fn track_pieces(self, ns: u64, position: Option<(i32, i32)>) -> Seq<PieceView> {
        let badge = ui::state_badge_of(self.state);
        let times = self.times_of(ns, position);
        seq![
            piece(badge.0, Look::Bold(badge.1)),
            piece("  "@, Look::Raw),
            piece(ui::name_or(self.now_playing, "—"@), Look::Bold(Tone::White)),
            piece("   "@, Look::Raw),
            piece(ui::times_text(times.0, times.1), Look::Colour(Tone::Gray)),
        ]
    }

    /// Bar:beat, time signature and tempo, as far as they are known.
    pub open spec fn beat_pieces(self, position: Option<(i32, i32)>, bpm: Option<i32>) -> Seq<
        PieceView,
    > {
        (match (self.cur_info, position) {
            (Some(info), Some(p)) => match player::bar_beat_of(p.0, info) {
                Some((bar, beat)) => seq![
                    piece("   "@, Look::Raw),
                    piece(
                        "♪ "@ + ascii::dec(bar as nat) + ":"@ + ascii::dec(beat as nat),
                        Look::Colour(Tone::Cyan),
                    ),
                    piece(
                        " "@ + ascii::dec(info.ts_num as nat) + "/"@ + ascii::dec(
                            info.ts_den as nat,
                        ),
                        Look::Colour(Tone::DarkGray),
                    ),
                ],
                None => seq![],
            },
            _ => seq![],
        }) + (match bpm {
            Some(b) => seq![
                piece("  "@, Look::Raw),
                piece(signed(b as int) + " BPM"@, Look::Colour(Tone::Green)),
            ],
            None => seq![],
        })
    }

    /// The font, the volume and the modes.
    pub open spec fn mode_pieces(self) -> Seq<PieceView> {
        let starred = self.now_playing matches Some(m) && self.soundfont matches Some(sf)
            && favourites::has_pair(self.favs.entries, m, sf);
        seq![
            piece("   "@, Look::Raw),
            piece(self.font_label(), Look::Colour(Tone::Magenta)),
            piece("   "@, Look::Raw),
            piece(self.volume_label(), Look::Colour(Tone::Cyan)),
            piece("   "@, Look::Raw),
            piece(" Next "@, mode_look(self.next_mode)),
            piece(" "@, Look::Raw),
            piece(" Rep "@, mode_look(self.repeat)),
            piece(" "@, Look::Raw),
            piece(" Fav "@, mode_look(starred)),
        ]
    }

    /// How far along the queue is, what there is to say, and what is searched.
    /// A list only plays on while its overlay is open; closed, its badge dims
    /// like a mode that is off.
    pub open spec fn notice_pieces(self) -> Seq<PieceView> {
        (match self.queue_badge() {
            Some(b) => seq![
                piece(" "@, Look::Raw),
                piece(
                    b,
                    if self.queue_live() {
                        Look::Lit(Tone::Magenta)
                    } else {
                        Look::Colour(Tone::DarkGray)
                    },
                ),
            ],
            None => seq![],
        }) + (match self.message {
            Some(m) => seq![piece("   "@, Look::Raw), piece(m, Look::Colour(Tone::Yellow))],
            None => seq![],
        }) + (match self.search {
            Some(q) => seq![piece("   "@, Look::Raw), piece("/"@ + q, Look::Over(Tone::Cyan))],
            None => seq![],
        })
    }

    /// The line of the player bar.
    pub open spec fn player_line(
        self,
        ns: u64,
        position: Option<(i32, i32)>,
        bpm: Option<i32>,
    ) -> Seq<PieceView> {
        self.track_pieces(ns, position) + self.beat_pieces(position, bpm) + self.mode_pieces()
            + self.notice_pieces()
    }
}

impl App {
    fn put_track(&self, out: &mut Vec<Piece>, ns: u64, position: Option<(i32, i32)>)
        ensures
            pieces(final(out)@) == pieces(old(out)@) + self@.track_pieces(ns, position),
    {
        let (icon, tone) = state_badge(self.state);
        let (elapsed, total) = self.times(ns, position);
        put_str(out, icon, Look::Bold(tone));
        put_str(out, "  ", Look::Raw);
        put(out, self.track_label(), Look::Bold(Tone::White));
        put_str(out, "   ", Look::Raw);
        put(out, times_label(elapsed, total), Look::Colour(Tone::Gray));
        assert(pieces(out@) =~= pieces(old(out)@) + self@.track_pieces(ns, position));
    }

    fn put_beat(&self, out: &mut Vec<Piece>, position: Option<(i32, i32)>, bpm: Option<i32>)
        ensures
            pieces(final(out)@) == pieces(old(out)@) + self@.beat_pieces(position, bpm),
    {
        match self.bar_beat(position) {
            Some(at) => {
                put_str(out, "   ", Look::Raw);
                put(out, bar_beat_label(at), Look::Colour(Tone::Cyan));
                match self.time_signature() {
                    Some(ts) => put(out, signature_label(ts), Look::Colour(Tone::DarkGray)),
                    None => {},
                }
            },
            None => {},
        }
        match bpm {
            Some(b) => {
                put_str(out, "  ", Look::Raw);
                let mut t = signed_text(b);
                t.append(" BPM");
                put(out, t, Look::Colour(Tone::Green));
            },
            None => {},
        }
        assert(pieces(out@) =~= pieces(old(out)@) + self@.beat_pieces(position, bpm));
    }

    fn put_modes(&self, out: &mut Vec<Piece>)
        ensures
            pieces(final(out)@) == pieces(old(out)@) + self@.mode_pieces(),
    {
        put_str(out, "   ", Look::Raw);
        put(out, self.font_label(), Look::Colour(Tone::Magenta));
        put_str(out, "   ", Look::Raw);
        put(out, self.volume_label(), Look::Colour(Tone::Cyan));
        put_str(out, "   ", Look::Raw);
        put_str(out, " Next ", look_of_mode(self.next_mode));
        put_str(out, " ", Look::Raw);
        put_str(out, " Rep ", look_of_mode(self.repeat));
        put_str(out, " ", Look::Raw);
        put_str(out, " Fav ", look_of_mode(self.current_is_favourite()));
        assert(pieces(out@) =~= pieces(old(out)@) + self@.mode_pieces());
    }

    fn put_notices(&self, out: &mut Vec<Piece>)
        requires
            self@.wf(),
        ensures
            pieces(final(out)@) == pieces(old(out)@) + self@.notice_pieces(),
    {
        match self.queue_badge() {
            Some(b) => {
                put_str(out, " ", Look::Raw);
                let look = if self.queue_live() {
                    Look::Lit(Tone::Magenta)
                } else {
                    Look::Colour(Tone::DarkGray)
                };
                put(out, b, look);
            },
            None => {},
        }
        match &self.message {
            Some(m) => {
                put_str(out, "   ", Look::Raw);
                put(out, m.clone(), Look::Colour(Tone::Yellow));
            },
            None => {},
        }
        match &self.search {
            Some(q) => {
                put_str(out, "   ", Look::Raw);
                let mut t = "/".to_owned();
                t.append(q.as_str());
                put(out, t, Look::Over(Tone::Cyan));
            },
            None => {},
        }
        assert(pieces(out@) =~= pieces(old(out)@) + self@.notice_pieces());
    }

    /// The line of the player bar. `bpm` is the tempo, while a track is loaded.
    pub fn player_line(&self, ns: u64, position: Option<(i32, i32)>, bpm: Option<i32>) -> (r: Vec<
        Piece,
    >)
        requires
            self@.wf(),
        ensures
            pieces(r@) == self@.player_line(ns, position, bpm),
    {
        let mut out: Vec<Piece> = Vec::new();
        assert(pieces(out@) =~= seq![]);
        self.put_track(&mut out, ns, position);
        self.put_beat(&mut out, position, bpm);
        self.put_modes(&mut out);
        self.put_notices(&mut out);
        assert(pieces(out@) =~= self@.player_line(ns, position, bpm));
        out
    }
}

// --- the bottom line --------------------------------------------------------

impl AppView {
    /// The bottom line: the prompt while it is open, the key hints otherwise.
    pub open spec fn bottom_line(self) -> Seq<PieceView> {
        match self.prompt {
            Some(p) => {
                let words = ui::prompt_words(p.kind);
                seq![
                    piece(words.0, Look::Lit(Tone::Cyan)),
                    piece(p.buf.push('█'), Look::Colour(Tone::Cyan)),
                    piece(words.1, Look::Colour(Tone::DarkGray)),
                ]
            },
            None => seq![piece(self.hints(), Look::Colour(Tone::DarkGray))],
        }
    }
}

impl App {
    /// The bottom line.
    pub fn bottom_line(&self) -> (r: Vec<Piece>)
        ensures
            pieces(r@) == self@.bottom_line(),
    {
        let mut out: Vec<Piece> = Vec::new();
        match &self.prompt {
            Some(p) => {
                let (label, keys) = prompt_labels(p.kind);
                let mut buf = p.buf.clone();
                buf.push('█');
                put_str(&mut out, label, Look::Lit(Tone::Cyan));
                put(&mut out, buf, Look::Colour(Tone::Cyan));
                put_str(&mut out, keys, Look::Colour(Tone::DarkGray));
            },
            None => put_str(&mut out, self.key_hints(), Look::Colour(Tone::DarkGray)),
        }
        assert(pieces(out@) =~= self@.bottom_line());
        out
    }
}

// --- the overlay ------------------------------------------------------------

impl AppView {
    /// The look of a row of the overlay. One whose file has since disappeared is
    /// dimmed, rather than silently failing when played.
    pub open spec fn row_look(self, source: Source, r: RowView) -> Look {
        if r.gone {
            Look::Colour(Tone::DarkGray)
        } else if self.row_playing(source, r) {
            Look::Bold(Tone::Green)
        } else {
            Look::Colour(Tone::White)
        }
    }

    /// The lines below the rows: where the selected row's track and font are, or
    /// how to get a row.
    pub open spec fn detail_lines(self, now: u64) -> Seq<Seq<PieceView>> {
        match (self.overlay_source(), self.details(now)) {
            (Some(_), Some((track, font))) => seq![
                detail_line(" track  "@, track.0, track.1),
                detail_line(" font   "@, font.0, font.1),
            ],
            (Some(source), None) => seq![
                seq![piece(ui::nothing_text(source), Look::Colour(Tone::DarkGray))],
            ],
            (None, _) => seq![],
        }
    }
}

/// A label, a location and a remark.
pub open spec fn detail_line(label: Seq<char>, loc: Option<LocView>, remark: Seq<char>) -> Seq<
    PieceView,
> {
    seq![
        piece(label, Look::Colour(Tone::DarkGray)),
        piece(
            match loc {
                Some(l) => l.display(),
                None => "—"@,
            },
            Look::Colour(Tone::Gray),
        ),
    ] + if remark.len() > 0 {
        seq![piece("   ("@ + remark + ")"@, Look::Colour(Tone::DarkGray))]
    } else {
        seq![]
    }
}

fn detail_pieces(label: &str, loc: &Option<Location>, remark: &str) -> (r: Vec<Piece>)
    ensures
        pieces(r@) == detail_line(label@, vfs::opt_view(*loc), remark@),
{
    let mut out: Vec<Piece> = Vec::new();
    put_str(&mut out, label, Look::Colour(Tone::DarkGray));
    let path = match loc {
        Some(l) => l.display(),
        None => "—".to_owned(),
    };
    put(&mut out, path, Look::Colour(Tone::Gray));
    if remark.unicode_len() > 0 {
        let mut t = "   (".to_owned();
        t.append(remark);
        t.append(")");
        put(&mut out, t, Look::Colour(Tone::DarkGray));
    }
    assert(pieces(out@) =~= detail_line(label@, vfs::opt_view(*loc), remark@));
    out
}

/// Lines of pieces.
pub open spec fn line_views(v: Seq<Vec<Piece>>) -> Seq<Seq<PieceView>> {
    v.map_values(|l: Vec<Piece>| pieces(l@))
}

impl App {
    /// One row of the overlay's table. `offset` is the local offset from UTC at
    /// the row's time, in seconds.
    pub fn overlay_row(
        &self,
        source: Source,
        r: &Row,
        offset: i64,
        cols: (usize, usize, usize, usize),
    ) -> (x: Piece)
        requires
            self@.wf(),
            r.idxs@.len() > 0 ==> r.idxs@[0] < usize::MAX,
        ensures
            x@ == piece(
                self@.row_text(source, r@, offset as int, cols),
                self@.row_look(source, r@),
            ),
    {
        let look = if r.gone {
            Look::Colour(Tone::DarkGray)
        } else if self.row_playing(source, r) {
            Look::Bold(Tone::Green)
        } else {
            Look::Colour(Tone::White)
        };
        Piece { text: self.overlay_row_text(source, r, offset, cols), look }
    }

    /// The lines below the rows of the overlay.
    pub fn detail_lines(&self, now: u64) -> (r: Vec<Vec<Piece>>)
        ensures
            line_views(r@) == self@.detail_lines(now),
    {
        let mut out: Vec<Vec<Piece>> = Vec::new();
        match self.overlay_source() {
            Some(source) => match self.overlay_details(now) {
                Some((track, font)) => {
                    out.push(detail_pieces(" track  ", &track.0, track.1.as_str()));
                    out.push(detail_pieces(" font   ", &font.0, font.1.as_str()));
                },
                None => {
                    let mut l: Vec<Piece> = Vec::new();
                    put_str(&mut l, nothing_line(source), Look::Colour(Tone::DarkGray));
                    assert(pieces(l@) =~= seq![
                        piece(ui::nothing_text(source), Look::Colour(Tone::DarkGray)),
                    ]);
                    out.push(l);
                },
            },
            None => {},
        }
        assert(line_views(out@) =~= self@.detail_lines(now));
        out
    }
}

} // verus!
