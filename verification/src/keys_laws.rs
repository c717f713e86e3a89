//! What the keys do: the table of the panels, the overlays, the prompt and the
//! search, key by key.

use crate::app;
use crate::app::{
    AppView, DiscardView, EffectView, OverlayView, Panel, PlayState, PromptKind, Source, WorldView,
};
use crate::browser::BrowserView;
use crate::keys::{Code, Key, Motion, OverlayCommand, PanelCommand};
use crate::raw;
use crate::text;
use vstd::prelude::*;

verus! {

/// True when the panels have the keyboard and nothing was asked.
pub open spec fn in_panels(a: AppView) -> bool {
    &&& !a.show_help && a.prompt is None && a.overlay is None && a.search is None
    &&& a.discard_armed is None
}

/// True when an overlay has the keyboard, its filter does not, and nothing was
/// asked.
pub open spec fn in_overlay(a: AppView) -> bool {
    &&& !a.show_help && a.prompt is None && a.discard_armed is None
    &&& a.overlay matches Some(o) && !o.filtering && !o.confirm_clear
}

/// True when the player's keys work: in the panels and in the overlays.
pub open spec fn hears_player(a: AppView) -> bool {
    in_panels(a) || in_overlay(a)
}

/// A key by itself.
pub open spec fn plain(code: Code) -> Key {
    Key { code, ctrl: false, alt: false, shift: false }
}

#[verifier::spinoff_prover]
proof fn lemma_in_panels(a: AppView, key: Key, w: WorldView, position: Option<(i32, i32)>)
    requires
        in_panels(a),
    ensures
        a.keyed(key, w) == match crate::keys::transport_of(key) {
            Some(t) => a.transported(t, w),
            None => a.panel_obeyed(crate::keys::panel_command_of(key), w),
        },
        a.key_effects(key, w, position) == match crate::keys::transport_of(key) {
            Some(t) => a.transport_effects(t, w, position),
            None => a.panel_effects(crate::keys::panel_command_of(key), w),
        },
{
    reveal(AppView::mode_keyed);
    reveal(AppView::mode_effects);
}

#[verifier::spinoff_prover]
proof fn lemma_in_overlay(a: AppView, key: Key, w: WorldView, position: Option<(i32, i32)>)
    requires
        in_overlay(a),
    ensures
        a.keyed(key, w) == match crate::keys::transport_of(key) {
            Some(t) => a.transported(t, w),
            None => a.overlay_obeyed(crate::keys::overlay_command_of(key), w),
        },
        a.key_effects(key, w, position) == match crate::keys::transport_of(key) {
            Some(t) => a.transport_effects(t, w, position),
            None => a.overlay_effects(crate::keys::overlay_command_of(key), w),
        },
{
    reveal(AppView::mode_keyed);
    reveal(AppView::mode_effects);
}

#[verifier::spinoff_prover]
proof fn lemma_hears_player(a: AppView, key: Key, w: WorldView, position: Option<(i32, i32)>)
    requires
        hears_player(a),
        crate::keys::transport_of(key) is Some,
    ensures
        a.keyed(key, w) == a.transported(crate::keys::transport_of(key)->0, w),
        a.key_effects(key, w, position) == a.transport_effects(
            crate::keys::transport_of(key)->0,
            w,
            position,
        ),
{
    if in_panels(a) {
        lemma_in_panels(a, key, w, position);
    } else {
        lemma_in_overlay(a, key, w, position);
    }
}

// --- the player -------------------------------------------------------------

/// `v` changed by `d`, but no less than none and no more than all of it.
pub open spec fn turned(v: u8, d: int) -> int {
    if v + d < 0 {
        0
    } else if v + d > 100 {
        100
    } else {
        v + d
    }
}

/// The keys of the volume: `<` and `>` turn it by one percent, `,` and `.` by
/// five, and Alt with a digit sets it to so many tens. The synth's gain follows,
/// and nothing else changes.
#[verifier::spinoff_prover]
pub proof fn lemma_volume_keys(
    a: AppView,
    key: Key,
    v: int,
    w: WorldView,
    position: Option<(i32, i32)>,
)
    requires
        hears_player(a),
        a.volume <= 100,
        ({
            ||| key.code == Code::Char('<') && v == turned(a.volume, -1)
            ||| key.code == Code::Char('>') && v == turned(a.volume, 1)
            ||| key.code == Code::Char(',') && v == turned(a.volume, -5)
            ||| key.code == Code::Char('.') && v == turned(a.volume, 5)
            ||| key.alt && key.code == Code::Char('1') && v == 10
            ||| key.alt && key.code == Code::Char('2') && v == 20
            ||| key.alt && key.code == Code::Char('3') && v == 30
            ||| key.alt && key.code == Code::Char('4') && v == 40
            ||| key.alt && key.code == Code::Char('5') && v == 50
            ||| key.alt && key.code == Code::Char('6') && v == 60
            ||| key.alt && key.code == Code::Char('7') && v == 70
            ||| key.alt && key.code == Code::Char('8') && v == 80
            ||| key.alt && key.code == Code::Char('9') && v == 90
        }),
    ensures
        a.keyed(key, w) == (AppView { volume: v as u8, ..a }),
        a.key_effects(key, w, position) == seq![EffectView::SetGain(v as u8)],
        0 <= v <= 100,
{
    lemma_hears_player(a, key, w, position);
}

/// The keys of the position: the arrows seek by five seconds, the brackets by
/// thirty, back or on. The readout moves so far and the synth is sought; while
/// nothing is on they do nothing.
#[verifier::spinoff_prover]
pub proof fn lemma_seek_keys(
    a: AppView,
    key: Key,
    secs: i32,
    w: WorldView,
    position: Option<(i32, i32)>,
)
    requires
        hears_player(a),
        ({
            ||| key.code == Code::Left && secs == -5
            ||| key.code == Code::Right && secs == 5
            ||| key.code == Code::Char('[') && secs == -30
            ||| key.code == Code::Char(']') && secs == 30
        }),
    ensures
        a.state == PlayState::Stopped ==> a.keyed(key, w) == a && a.key_effects(
            key,
            w,
            position,
        ).len() == 0,
        a.state != PlayState::Stopped ==> ({
            let fx = a.key_effects(key, w, position);
            &&& a.keyed(key, w) == a.sought(secs, w.ns)
            &&& fx.len() == 1
            &&& fx[0] == EffectView::SeekTicks(
                app::seek_delta(secs, a.shown.reading(w.ns) as int, position),
            )
        }),
{
    lemma_hears_player(a, key, w, position);
}

/// How far the synth is sought: for `secs` seconds, at the ticks per second that
/// were played so far; within the first half second, or at the very start, by a
/// fiftieth of the track for each second.
pub proof fn lemma_seek_ticks(secs: i32, elapsed: int, cur: i32, total: i32)
    requires
        0 <= cur <= total,
        -100 <= secs <= 100,
        elapsed <= u64::MAX,
    ensures
        ({
            let d = app::seek_delta(secs, elapsed, Some((cur, total)));
            let at_rate = secs * cur * 1_000_000_000;
            &&& secs >= 0 ==> d >= 0
            &&& secs <= 0 ==> d <= 0
            &&& elapsed > 500_000_000 && cur > 0 && -2_000_000_000 * elapsed <= at_rate
                <= 2_000_000_000 * elapsed ==> {
                &&& secs >= 0 ==> d * elapsed <= at_rate < (d + 1) * elapsed
                &&& secs <= 0 ==> (d - 1) * elapsed < at_rate <= d * elapsed
            }
            &&& (elapsed <= 500_000_000 || cur == 0) && -2_000_000_000 <= secs * total
                <= 2_000_000_000 ==> {
                &&& secs >= 0 ==> d * 50 <= secs * total < (d + 1) * 50
                &&& secs <= 0 ==> (d - 1) * 50 < secs * total <= d * 50
            }
        }),
        app::seek_delta(secs, elapsed, None) == 0,
{
    let t = secs * total;
    let r = secs * cur * 1_000_000_000;
    assert(secs >= 0 ==> t >= 0 && r >= 0) by (nonlinear_arith)
        requires
            t == secs * total,
            r == secs * cur * 1_000_000_000,
            0 <= cur <= total,
    ;
    assert(secs <= 0 ==> t <= 0 && r <= 0) by (nonlinear_arith)
        requires
            t == secs * total,
            r == secs * cur * 1_000_000_000,
            0 <= cur <= total,
    ;
    if elapsed > 500_000_000 && cur > 0 {
        let q = app::quotient(r, elapsed);
        lemma_quotient(r, elapsed);
        assert(-2_000_000_000 * elapsed <= r <= 2_000_000_000 * elapsed ==> -2_000_000_000 <= q
            <= 2_000_000_000) by (nonlinear_arith)
            requires
                elapsed > 0,
                r >= 0 ==> q >= 0 && q * elapsed <= r < (q + 1) * elapsed,
                r <= 0 ==> q <= 0 && (q - 1) * elapsed < r <= q * elapsed,
        ;
    } else {
        lemma_quotient(t, 50);
    }
}

proof fn lemma_quotient(a: int, b: int)
    requires
        b > 0,
    ensures
        a >= 0 ==> app::quotient(a, b) >= 0 && app::quotient(a, b) * b <= a < (app::quotient(a, b)
            + 1) * b,
        a <= 0 ==> app::quotient(a, b) <= 0 && (app::quotient(a, b) - 1) * b < a <= app::quotient(
            a,
            b,
        ) * b,
{
    let x = if a >= 0 {
        a
    } else {
        -a
    };
    let q = x / b;
    assert(q >= 0 && q * b <= x < (q + 1) * b) by (nonlinear_arith)
        requires
            b > 0,
            x >= 0,
            q == x / b,
    ;
    assert((-q) * b == -(q * b) && (-q - 1) * b == -((q + 1) * b)) by (nonlinear_arith);
}

/// The keys of the player's state: `p` and the space pause and go on, `s` stops,
/// `n` and `r` turn next and repeat mode on and off and say so.
#[verifier::spinoff_prover]
pub proof fn lemma_player_keys(a: AppView, key: Key, w: WorldView, position: Option<(i32, i32)>)
    requires
        hears_player(a),
    ensures
        key.code == Code::Char('p') || key.code == Code::Char(' ') ==> a.keyed(key, w)
            == a.pause_toggled(w.ns) && a.key_effects(key, w, position) == a.pause_effects(),
        key.code == Code::Char('s') ==> a.keyed(key, w) == a.stopped(w) && a.key_effects(
            key,
            w,
            position,
        ) == a.stop_effects(w.ns),
        key.code == Code::Char('n') ==> a.key_effects(key, w, position).len() == 0 && a.keyed(key, w)
            == (AppView {
            next_mode: !a.next_mode,
            message: Some(
                if a.next_mode {
                    "Next: "@ + "OFF"@
                } else {
                    "Next: "@ + "ON"@
                },
            ),
            ..a
        }),
        key.code == Code::Char('r') && !key.ctrl ==> a.key_effects(key, w, position).len() == 0
            && a.keyed(key, w) == (AppView {
            repeat: !a.repeat,
            message: Some(
                if a.repeat {
                    "Repeat: "@ + "OFF"@
                } else {
                    "Repeat: "@ + "ON"@
                },
            ),
            ..a
        }),
{
    if crate::keys::transport_of(key) is Some {
        lemma_hears_player(a, key, w, position);
    }
}

// --- the panels -------------------------------------------------------------

/// The cursor keys: the arrows move by one row, the page keys by ten, Home and
/// End to either end.
pub open spec fn moves(code: Code, from: Option<usize>, len: int, to: Option<usize>) -> bool {
    let i: int = match from {
        Some(k) => k as int,
        None => 0,
    };
    let far: int = if code == Code::PageUp || code == Code::PageDown {
        10
    } else {
        1
    };
    if len == 0 {
        to == from
    } else {
        to matches Some(j) && if code == Code::Home {
            j == 0
        } else if code == Code::End {
            j == len - 1
        } else if code == Code::Up || code == Code::PageUp {
            j == if i < far {
                0
            } else {
                i - far
            }
        } else {
            j == if i + far < len {
                i + far
            } else {
                len - 1
            }
        }
    }
}

/// True for a cursor key.
pub open spec fn is_cursor_key(code: Code) -> bool {
    code == Code::Up || code == Code::Down || code == Code::PageUp || code == Code::PageDown || code
        == Code::Home || code == Code::End
}

/// A cursor key moves the cursor of the panel in focus, and nothing else.
#[verifier::spinoff_prover]
pub proof fn lemma_panel_cursor_keys(
    a: AppView,
    key: Key,
    w: WorldView,
    position: Option<(i32, i32)>,
) -> (to: Option<usize>)
    requires
        in_panels(a),
        is_cursor_key(key.code),
        a.active_panel().entries.len() <= usize::MAX,
    ensures
        moves(key.code, a.active_panel().at, a.active_panel().entries.len() as int, to),
        a.keyed(key, w) == a.with_active(BrowserView { at: to, ..a.active_panel() }),
        a.key_effects(key, w, position).len() == 0,
{
    lemma_in_panels(a, key, w, position);
    a.keyed(key, w).active_panel().at
}

/// The keys of the panels that go somewhere: Tab to the other panel, `U` up a
/// directory, `i` to a path that is asked for, `G` to what is playing, `R`, `F`
/// and `P` to the lists, `h` and `?` to the help, `/` and `g` to the search.
#[verifier::spinoff_prover]
pub proof fn lemma_panel_keys(a: AppView, key: Key, w: WorldView, position: Option<(i32, i32)>)
    requires
        in_panels(a),
    ensures
        ({
            let b = a.keyed(key, w);
            let fx = a.key_effects(key, w, position);
            let c = key.code;
            &&& c == Code::Tab || c == Code::BackTab ==> fx.len() == 0 && b == (AppView {
                active: if a.active == Panel::Midi {
                    Panel::Sf2
                } else {
                    Panel::Midi
                },
                ..a
            })
            &&& c == Code::Char('U') ==> b == a && fx == seq![EffectView::GoUp(a.active)]
            &&& c == Code::Char('i') ==> fx.len() == 0 && (b.prompt matches Some(p) && p.kind
                == PromptKind::Goto && p.confirm is None && p.buf.last() == '/' && (p.buf
                == raw::shown(a.active_panel().dir.fs_dir()) || p.buf == raw::shown(
                a.active_panel().dir.fs_dir(),
            ) + seq!['/'])) && b == (AppView { prompt: b.prompt, ..a })
            &&& c == Code::Char('R') ==> fx.len() == 0 && b.overlay_source() == Some(
                Source::History,
            )
            &&& c == Code::Char('F') ==> fx.len() == 0 && b.overlay_source() == Some(
                Source::Favourites,
            )
            &&& c == Code::Char('P') ==> fx.len() == 0 && b.overlay_source() == Some(
                Source::Playlist,
            )
            &&& c == Code::Char('h') || c == Code::Char('?') ==> fx.len() == 0 && b == (AppView {
                show_help: true,
                ..a
            })
            &&& c == Code::Char('/') || c == Code::Char('g') ==> fx.len() == 0 && b == (AppView {
                search: Some(seq![]),
                ..a
            })
            &&& c == Code::Char('r') && key.ctrl ==> b == a && fx == seq![
                EffectView::Refresh(a.active),
            ]
        }),
{
    lemma_in_panels(a, key, w, position);
    reveal(AppView::opened);
    assert(raw::shown(a.active_panel().dir.fs_dir()).push('/') =~= raw::shown(
        a.active_panel().dir.fs_dir(),
    ) + seq!['/']);
}

/// The keys of the panels that do something: Enter acts on the row, `f` stars
/// what plays, `a` and `A` add to the playlist, `H` shows or hides the hidden
/// files of both panels, `q` quits or asks first.
#[verifier::spinoff_prover]
pub proof fn lemma_panel_deeds(a: AppView, key: Key, w: WorldView, position: Option<(i32, i32)>)
    requires
        in_panels(a),
    ensures
        ({
            let b = a.keyed(key, w);
            let fx = a.key_effects(key, w, position);
            let c = key.code;
            &&& c == Code::Enter ==> b == a.activated(w.host) && fx == a.activate_effects(w.host)
            &&& c == Code::Char('f') ==> match (a.now_playing, a.soundfont) {
                (Some(m), Some(sf)) => b == a.starred(m, sf, w.unix) && fx == seq![
                    EffectView::SaveFavourites,
                ],
                _ => fx.len() == 0 && b.favs == a.favs,
            }
            &&& c == Code::Char('a') ==> fx.len() == 0 && b == a.added(false, w.host)
            &&& c == Code::Char('A') ==> fx.len() == 0 && b == a.added(true, w.host)
            &&& c == Code::Char('H') ==> fx == seq![
                EffectView::Refresh(Panel::Midi),
                EffectView::Refresh(Panel::Sf2),
            ] && b.midi.show_hidden == !a.active_panel().show_hidden && b.sf2.show_hidden
                == !a.active_panel().show_hidden
            &&& c == Code::Char('q') || c == Code::Char('Q') ==> fx.len() == 0 && (
            !a.playlist.dirty ==> b == (AppView { quit: true, ..a })) && (a.playlist.dirty
                ==> !b.quit || a.quit)
        }),
{
    lemma_in_panels(a, key, w, position);
}

// --- the overlays -----------------------------------------------------------

/// A cursor key moves the cursor of the overlay, and nothing else.
#[verifier::spinoff_prover]
pub proof fn lemma_overlay_cursor_keys(
    a: AppView,
    key: Key,
    w: WorldView,
    position: Option<(i32, i32)>,
) -> (to: Option<usize>)
    requires
        in_overlay(a),
        is_cursor_key(key.code),
        !key.shift,
        (a.overlay->0).rows.len() <= usize::MAX,
    ensures
        moves(key.code, (a.overlay->0).at, (a.overlay->0).rows.len() as int, to),
        a.keyed(key, w) == (AppView {
            overlay: Some(OverlayView { at: to, ..a.overlay->0 }),
            ..a
        }),
        a.key_effects(key, w, position).len() == 0,
{
    lemma_in_overlay(a, key, w, position);
    let m = lemma_motion(key);
    let o = a.overlay->0;
    let to = crate::keys::after(m, o.at, o.rows.len() as int);
    assert(a.keyed(key, w) == a.overlay_moved(m));
    to
}

proof fn lemma_motion(key: Key) -> (m: Motion)
    requires
        is_cursor_key(key.code),
        !key.shift,
    ensures
        crate::keys::transport_of(key) is None,
        crate::keys::overlay_command_of(key) == OverlayCommand::Move(m),
        forall|at: Option<usize>, len: int|
            0 <= len <= usize::MAX ==> moves(
                key.code,
                at,
                len,
                #[trigger] crate::keys::after(m, at, len),
            ),
{
    crate::keys::motion_of(key.code)->0
}

/// With Shift an arrow moves the entry at the cursor itself, as `J` and `K` do.
#[verifier::spinoff_prover]
pub proof fn lemma_overlay_shift_keys(
    a: AppView,
    key: Key,
    down: bool,
    w: WorldView,
    position: Option<(i32, i32)>,
)
    requires
        in_overlay(a),
        down ==> key.shift && key.code == Code::Down || key.code == Code::Char('J'),
        !down ==> key.shift && key.code == Code::Up || key.code == Code::Char('K'),
    ensures
        a.keyed(key, w) == a.row_moved(down, w.disk),
        a.key_effects(key, w, position) == a.move_effects(down),
{
    lemma_in_overlay(a, key, w, position);
    lemma_shift(key, down);
}

proof fn lemma_shift(key: Key, down: bool)
    requires
        down ==> key.shift && key.code == Code::Down || key.code == Code::Char('J'),
        !down ==> key.shift && key.code == Code::Up || key.code == Code::Char('K'),
    ensures
        crate::keys::transport_of(key) is None,
        crate::keys::overlay_command_of(key) == (OverlayCommand::Shift { down }),
{
}

/// The keys of the overlays: Esc and `q` close, `R`, `F` and `P` go to that list
/// or close it where it shows, Enter plays the row, Tab turns the view, `G`
/// shows the row's files in the panels and closes, `/` and `g` start a filter,
/// `d`, `f`, `D`, `S`, `x`, `w` and `W` work on the list.
#[verifier::spinoff_prover]
pub proof fn lemma_overlay_keys(a: AppView, key: Key, w: WorldView, position: Option<(i32, i32)>)
    requires
        in_overlay(a),
    ensures
        ({
            let b = a.keyed(key, w);
            let fx = a.key_effects(key, w, position);
            let c = key.code;
            let o = a.overlay->0;
            &&& c == Code::Esc || c == Code::Char('q') || c == Code::Char('Q') ==> fx.len() == 0
                && b == (AppView { overlay: None, ..a })
            &&& c == Code::Char('R') ==> fx.len() == 0 && b.overlay_source() == if o.source
                == Source::History {
                None
            } else {
                Some(Source::History)
            }
            &&& c == Code::Char('F') ==> fx.len() == 0 && b.overlay_source() == if o.source
                == Source::Favourites {
                None
            } else {
                Some(Source::Favourites)
            }
            &&& c == Code::Char('P') ==> fx.len() == 0 && b.overlay_source() == if o.source
                == Source::Playlist {
                None
            } else {
                Some(Source::Playlist)
            }
            &&& c == Code::Enter ==> b == a.overlay_activated(w.disk) && fx
                == a.overlay_activate_effects(w.disk)
            &&& c == Code::Tab || c == Code::BackTab ==> b == a.view_cycled(w.disk) && fx.len() == 0
            &&& c == Code::Char('d') ==> b == a.row_deleted(w.disk) && fx == a.delete_effects()
            &&& c == Code::Char('f') ==> b == a.row_starred(w) && fx == a.row_star_effects()
            &&& c == Code::Char('D') ==> b == a.cleared(w.disk) && fx == a.clear_effects()
            &&& c == Code::Char('S') ==> b == a.font_set(true, w.host, w.disk) && fx.len() == 0
            &&& c == Code::Char('x') ==> b == a.font_set(false, w.host, w.disk) && fx.len() == 0
            &&& c == Code::Char('w') ==> b == a.saving(false) && fx == a.saving_effects(
                false,
                w.host.cwd,
            )
            &&& c == Code::Char('W') ==> b == a.saving(true) && fx == a.saving_effects(
                true,
                w.host.cwd,
            )
            &&& c == Code::Char('/') || c == Code::Char('g') ==> fx.len() == 0 && (b.overlay
                matches Some(p) && p.filtering && p.filter.len() == 0)
            &&& c == Code::Char('G') ==> match o.selected() {
                Some(r) => b == (AppView { overlay: None, ..a }) && fx == app::reveals(
                    r.midi,
                    r.soundfont,
                ),
                None => b == a && fx.len() == 0,
            }
        }),
{
    lemma_in_overlay(a, key, w, position);
    reveal(AppView::opened);
}

/// True when the filter of an overlay has the keyboard.
pub open spec fn in_filter(a: AppView) -> bool {
    &&& !a.show_help && a.prompt is None && a.discard_armed is None
    &&& a.overlay matches Some(o) && o.filtering
}

#[verifier::spinoff_prover]
proof fn lemma_in_filter(a: AppView, key: Key, w: WorldView, position: Option<(i32, i32)>)
    requires
        in_filter(a),
    ensures
        a.keyed(key, w) == a.overlay_obeyed(crate::keys::filter_command_of(key), w),
        a.key_effects(key, w, position) == a.overlay_effects(
            crate::keys::filter_command_of(key),
            w,
        ),
{
    reveal(AppView::mode_keyed);
    reveal(AppView::mode_effects);
}

proof fn lemma_refiltered(a: AppView, typed: Seq<char>, on: bool, w: WorldView)
    requires
        a.overlay is Some,
    ensures
        filters(a, a.refiltered(typed, on, w.disk), typed, on, w),
{
}

/// True when `b` is `a` with that filter in the overlay: its rows are those of
/// the list that pass, and the cursor is on the first.
pub open spec fn filters(a: AppView, b: AppView, typed: Seq<char>, on: bool, w: WorldView) -> bool {
    let o = a.overlay->0;
    let rows = a.rows_of(o.source, o.view, typed, w.disk);
    &&& b.overlay matches Some(p) && p.filter == typed && p.rows == rows && p.filtering == on
        && p.source == o.source && p.view == o.view && p.at == if rows.len() == 0 {
        None
    } else {
        Some(0usize)
    }
    &&& b == (AppView { overlay: b.overlay, ..a })
}

/// While the filter of an overlay has the keyboard, what is typed goes into it
/// and the rows follow; Backspace takes the last character off, Esc drops the
/// filter, Enter plays the row.
#[verifier::spinoff_prover]
pub proof fn lemma_filter_keys(
    a: AppView,
    key: Key,
    ch: char,
    w: WorldView,
    position: Option<(i32, i32)>,
)
    requires
        in_filter(a),
    ensures
        key.code == Code::Char(ch) ==> filters(
            a,
            a.keyed(key, w),
            (a.overlay->0).filter.push(ch),
            true,
            w,
        ),
        key.code == Code::Backspace && (a.overlay->0).filter.len() > 0 ==> filters(
            a,
            a.keyed(key, w),
            (a.overlay->0).filter.drop_last(),
            true,
            w,
        ),
        key.code == Code::Backspace && (a.overlay->0).filter.len() == 0 ==> filters(
            a,
            a.keyed(key, w),
            seq![],
            true,
            w,
        ),
        key.code == Code::Esc ==> filters(a, a.keyed(key, w), seq![], false, w),
        key.code == Code::Enter ==> a.keyed(key, w) == a.overlay_activated(w.disk)
            && a.key_effects(key, w, position) == a.overlay_activate_effects(w.disk),
        key.code == Code::Char(ch) || key.code == Code::Backspace || key.code == Code::Esc
            ==> a.key_effects(key, w, position).len() == 0,
{
    lemma_in_filter(a, key, w, position);
    let o = a.overlay->0;
    if o.filter.len() == 0 {
        assert(o.filter =~= seq![]);
    }
    lemma_refiltered(a, o.filter.push(ch), true, w);
    lemma_refiltered(a, app::shortened(o.filter), true, w);
    lemma_refiltered(a, seq![], false, w);
}

// --- the search and the prompt ----------------------------------------------

/// While a panel is searched, what is typed narrows it; Backspace takes the last
/// character off, Esc ends the search and shows everything again, Enter acts on
/// the row and drops the filter.
#[verifier::spinoff_prover]
pub proof fn lemma_search_keys(a: AppView, key: Key, ch: char, w: WorldView, position: Option<(i32, i32)>)
    requires
        !a.show_help,
        a.prompt is None,
        a.overlay is None,
        a.discard_armed is None,
        a.search is Some,
    ensures
        ({
            let b = a.keyed(key, w);
            let fx = a.key_effects(key, w, position);
            let q = a.search->0;
            &&& key.code == Code::Char(ch) ==> b.search == Some(q.push(ch)) && fx.len() == 0
                && b.active_panel().filter == text::lower(q.push(ch))
            &&& key.code == Code::Backspace ==> fx.len() == 0 && (b.search matches Some(r) && (
            q.len() > 0 ==> r == q.drop_last()) && (q.len() == 0 ==> r.len() == 0)
                && b.active_panel().filter == text::lower(r))
            &&& key.code == Code::Esc ==> b.search is None && fx.len() == 0
                && b.active_panel().filter.len() == 0
            &&& key.code == Code::Enter ==> b.search is None && fx.len() > 0 && fx.last()
                == EffectView::ClearFilter(a.active) && fx.drop_last() == a.activate_effects(
                w.host,
            )
            &&& b.active == a.active
        }),
{
    reveal(AppView::mode_keyed);
    reveal(AppView::mode_effects);
    text::lemma_lower_empty();
    let n = AppView { search: None, ..a };
    assert(n.activate_effects(w.host) =~= a.activate_effects(w.host));
    assert(n.activate_effects(w.host).push(EffectView::ClearFilter(a.active)).drop_last()
        =~= n.activate_effects(w.host));
    let q = a.search->0;
    if q.len() == 0 {
        assert(q =~= seq![]);
    }
}

/// While a path is asked for, what is typed goes into it; Backspace takes the
/// last character off, Ctrl-W and Alt-Backspace the last component, Tab asks for
/// a completion, Esc gives up, and any edit takes back a question.
#[verifier::spinoff_prover]
pub proof fn lemma_prompt_keys(a: AppView, key: Key, ch: char, w: WorldView, position: Option<(i32, i32)>)
    requires
        !a.show_help,
        a.discard_armed is None,
        a.prompt is Some,
    ensures
        ({
            let b = a.keyed(key, w);
            let fx = a.key_effects(key, w, position);
            let p = a.prompt->0;
            let cut = key.code == Code::Backspace && key.alt || key.code == Code::Char('w')
                && key.ctrl;
            &&& key.code == Code::Char(ch) && !cut ==> fx.len() == 0 && (b.prompt matches Some(n)
                && n.buf == p.buf.push(ch) && n.confirm is None && n.kind == p.kind)
            &&& key.code == Code::Backspace && !cut ==> fx.len() == 0 && (b.prompt matches Some(n)
                && (p.buf.len() > 0 ==> n.buf == p.buf.drop_last()) && (p.buf.len() == 0
                ==> n.buf.len() == 0) && n.confirm is None && n.kind == p.kind)
            &&& cut ==> fx.len() == 0 && (b.prompt matches Some(n) && n.buf
                == crate::prompt::without_component(p.buf) && n.confirm is None && n.kind == p.kind)
            &&& key.code == Code::Tab ==> b == a && fx == seq![EffectView::CompletePrompt]
            &&& key.code == Code::Esc ==> b == (AppView { prompt: None, ..a }) && fx.len() == 0
            &&& key.code == Code::Enter ==> b == a.submitted(w) && fx == a.submit_effects(w)
        }),
{
    reveal(AppView::mode_keyed);
    reveal(AppView::mode_effects);
}

/// The keys that confirm: `q` again where quitting was held back.
#[verifier::spinoff_prover]
pub proof fn lemma_quit_confirmed(a: AppView, key: Key, w: WorldView)
    requires
        !a.show_help,
        a.prompt is None,
        a.overlay is None,
        a.search is None,
        a.discard_armed == Some(DiscardView::Quit),
        key.code == Code::Char('q') || key.code == Code::Char('Q'),
    ensures
        a.keyed(key, w).quit,
{
    reveal(AppView::mode_keyed);
    assert(crate::keys::transport_of(key) is None);
    assert(crate::keys::panel_command_of(key) == PanelCommand::Quit);
}

/// Any key but `q` where quitting was held back, and Enter where opening was,
/// takes the question back first.
pub proof fn lemma_question_taken_back(a: AppView, key: Key, w: WorldView)
    requires
        !a.show_help,
        a.prompt is None,
        a.overlay is None,
        a.search is None,
        a.discard_armed is Some,
        a.discard_armed->0 is Quit ==> key.code != Code::Char('q') && key.code != Code::Char('Q'),
        a.discard_armed->0 is Open ==> key.code != Code::Enter,
    ensures
        a.keyed(key, w) == (AppView { discard_armed: None, message: None, ..a }).keyed(key, w),
{
}

} // verus!
