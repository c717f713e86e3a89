//! The player: loading fonts, starting and stopping tracks, the playback
//! clock, the volume and the stars.

use crate::app;
use crate::app::{ask, on_off, App, AppView, Effect, EffectView, Panel, PlayState, World};
use crate::browser::BrowserView;
use crate::favourites;
use crate::favourites::FavouritesView;
use crate::midi::{Length, MidiInfo};
use crate::vfs::{clone_loc, LocView, Location};
use vstd::prelude::*;
use vstd::string::*;

verus! {

// --- fonts and tracks -------------------------------------------------------

/// The work of loading a font.
pub open spec fn load_effect(loc: LocView, remember: bool) -> Seq<EffectView> {
    seq![EffectView::LoadFont { loc, remember, adopt: true }]
}

impl App {
    /// Load a SoundFont the user chose. It becomes the user's font.
    pub fn load_soundfont(&self, loc: Location) -> (r: Vec<Effect>)
        ensures
            app::effects(r@) == load_effect(loc@, true),
    {
        let mut out: Vec<Effect> = Vec::new();
        ask(&mut out, Effect::LoadFont { loc, remember: true, adopt: true });
        out
    }

    /// Load the SoundFont remembered from the last session without writing a
    /// history entry: the user did not pick it this time, and an automatic
    /// restore must not push it to the top of the history on every launch. It
    /// is still the user's font.
    pub fn restore_soundfont(&self, loc: Location) -> (r: Vec<Effect>)
        ensures
            app::effects(r@) == load_effect(loc@, false),
    {
        let mut out: Vec<Effect> = Vec::new();
        ask(&mut out, Effect::LoadFont { loc, remember: false, adopt: true });
        out
    }

    /// The synth has loaded `loc`. Swapping the font under a playing track is
    /// the A/B move worth remembering as a combination; it starts a fresh
    /// dwell. With nothing playing there is no listening time to wait for, so
    /// the font is remembered on its own straight away.
    #[verifier::rlimit(30)]
    pub fn font_loaded(
        &mut self,
        loc: Location,
        remember: bool,
        adopt: bool,
        world: &World,
    ) -> (r: Vec<Effect>)
        requires
            old(self)@.wf(),
        ensures
            final(self)@.wf(),
            final(self)@ == old(self)@.with_font(loc@, remember, adopt, world@),
            app::effects(r@) == old(self)@.font_effects(remember, world@),
    {
        let mut out: Vec<Effect> = Vec::new();
        let mut m = "SoundFont loaded: ".to_owned();
        let name = loc.file_name();
        m.append(name.as_str());
        proof {
            app::lemma_commit_frame(self@, world@);
        }
        self.commit_into(world, &mut out);
        self.remember_font(&loc, remember, world, &mut out);
        self.message = Some(m);
        self.save_into(&mut out);
        if adopt {
            self.user_font = Some(loc.clone());
        }
        self.soundfont = Some(loc);
        out
    }

    fn remember_font(
        &mut self,
        loc: &Location,
        remember: bool,
        world: &World,
        out: &mut Vec<Effect>,
    )
        requires
            old(self)@.wf(),
        ensures
            final(self)@.wf(),
            final(self)@ == old(self)@.font_remembered(loc@, remember, world@),
            app::effects(final(out)@) == app::effects(old(out)@)
                + old(self)@.remember_effects(remember),
    {
        if !remember {
            // Nothing to remember, but the combination changed: drop any
            // pending entry so it is not credited to the new font.
            self.pending = None;
        } else if self.state != PlayState::Stopped && self.now_playing.is_some() {
            self.pending = Some(
                app::Pending {
                    midi: clone_loc(&self.now_playing),
                    soundfont: Some(loc.clone()),
                    at_ns: self.heard.read(world.ns),
                    count: true,
                },
            );
        } else {
            self.history.record(None, Some(loc.clone()), world.unix, true);
            ask(out, Effect::SaveHistory);
        }
    }

    /// Outside work failed for the reason given.
    pub fn failed(&mut self, why: String)
        ensures
            final(self)@ == old(self)@.saying(why@),
    {
        self.message = Some(why);
    }

    pub fn play_path(&self, loc: Location) -> (r: Vec<Effect>)
        ensures
            app::effects(r@) == seq![EffectView::Play { loc: loc@, count: true }],
    {
        let mut out: Vec<Effect> = Vec::new();
        ask(&mut out, Effect::Play { loc, count: true });
        out
    }

    /// A track cannot start because the synth has no font.
    pub fn no_font(&mut self)
        ensures
            final(self)@ == old(self)@.saying(
                "No SoundFont loaded — pick one in the right panel (Tab, then Enter)"@,
            ),
    {
        self.say("No SoundFont loaded — pick one in the right panel (Tab, then Enter)");
    }

    /// The synth has started to play `loc`, of which `info` is known. `count`
    /// is false when repeat mode is looping the same track again: the history
    /// entry's time is refreshed, but one long loop is still one listening
    /// session.
    pub fn track_started(
        &mut self,
        loc: Location,
        count: bool,
        info: Option<MidiInfo>,
        world: &World,
    ) -> (r: Vec<Effect>)
        requires
            old(self)@.wf(),
        ensures
            final(self)@.wf(),
            final(self)@ == old(self)@.with_track(loc@, count, info, world@),
            app::effects(r@) == old(self)@.commit_effects(world@.ns),
    {
        // Commit what was playing while the playback clock still belongs to
        // it, then restart the clock for this track.
        let out = self.commit_history(world);
        self.message = None;
        self.cur_info = info;
        self.now_playing = Some(loc.clone());
        self.last_played = Some(loc.clone());
        self.queue_held = false;
        self.state = PlayState::Playing;
        self.heard.start(world.ns);
        self.shown.start(world.ns);
        self.pending = Some(
            app::Pending {
                midi: Some(loc),
                soundfont: clone_loc(&self.soundfont),
                at_ns: 0,
                count,
            },
        );
        out
    }

    pub fn toggle_pause(&mut self, ns: u64) -> (r: Vec<Effect>)
        ensures
            old(self)@.wf() ==> final(self)@.wf(),
            final(self)@ == old(self)@.pause_toggled(ns),
            app::effects(r@) == old(self)@.pause_effects(),
    {
        let mut out: Vec<Effect> = Vec::new();
        match self.state {
            PlayState::Playing => {
                ask(&mut out, Effect::PauseSynth);
                self.heard.hold(ns);
                self.shown.hold(ns);
                self.state = PlayState::Paused;
            },
            PlayState::Paused => {
                ask(&mut out, Effect::ResumeSynth);
                self.heard.resume(ns);
                self.shown.resume(ns);
                self.state = PlayState::Playing;
            },
            PlayState::Stopped => {},
        }
        out
    }

    pub fn stop(&mut self, world: &World) -> (r: Vec<Effect>)
        requires
            old(self)@.wf(),
        ensures
            final(self)@.wf(),
            final(self)@ == old(self)@.stopped(world@),
            app::effects(r@) == old(self)@.stop_effects(world@.ns),
    {
        let mut out: Vec<Effect> = Vec::new();
        if self.state == PlayState::Stopped {
            return out;
        }
        self.commit_into(world, &mut out);
        self.pending = None;
        ask(&mut out, Effect::StopSynth);
        self.state = PlayState::Stopped;
        self.heard.reset();
        self.shown.reset();
        out
    }
}

// --- the clock and the volume -----------------------------------------------

/// `a / b` towards zero, kept within the range of `i32`.
fn quotient_i32(a: i128, b: i128) -> (r: i32)
    requires
        b > 0,
        a > i128::MIN,
    ensures
        r == app::within(app::quotient(a as int, b as int), i32::MIN as int, i32::MAX as int),
{
    let q: i128 = if a >= 0 {
        proof {
            assert(a as int / b as int >= 0) by (nonlinear_arith)
                requires
                    a >= 0,
                    b > 0,
            ;
            assert(a as int / b as int <= a) by (nonlinear_arith)
                requires
                    a >= 0,
                    b > 0,
            ;
        }
        a / b
    } else {
        let m: i128 = -a;
        proof {
            assert(m as int / b as int >= 0) by (nonlinear_arith)
                requires
                    m >= 0,
                    b > 0,
            ;
            assert(m as int / b as int <= m) by (nonlinear_arith)
                requires
                    m >= 0,
                    b > 0,
            ;
        }
        -(m / b)
    };
    if q < i32::MIN as i128 {
        i32::MIN
    } else if q > i32::MAX as i128 {
        i32::MAX
    } else {
        q as i32
    }
}

/// The product of two numbers of 32 bits.
fn product(a: i32, b: i32) -> (r: i128)
    ensures
        r == a * b,
        -0x4000_0000_0000_0000 <= r <= 0x4000_0000_0000_0000,
{
    proof {
        assert(-0x4000_0000_0000_0000 <= a * b <= 0x4000_0000_0000_0000) by (nonlinear_arith)
            requires
                -0x8000_0000 <= a <= 0x7fff_ffff,
                -0x8000_0000 <= b <= 0x7fff_ffff,
        ;
    }
    a as i128 * b as i128
}

impl App {
    /// Seek by a number of seconds (positive or negative). `position` is the
    /// synth's tick and the total of ticks, when it is playing.
    pub fn seek_seconds(&mut self, secs: i32, ns: u64, position: Option<(i32, i32)>) -> (r: Vec<
        Effect,
    >)
        ensures
            old(self)@.wf() ==> final(self)@.wf(),
            final(self)@ == old(self)@.sought(secs, ns),
            app::effects(r@) == if old(self)@.state == PlayState::Stopped {
                seq![]
            } else {
                seq![
                    EffectView::SeekTicks(
                        app::seek_delta(secs, old(self)@.counted(ns) as int, position),
                    ),
                ]
            },
    {
        let mut out: Vec<Effect> = Vec::new();
        if self.state == PlayState::Stopped {
            return out;
        }
        let elapsed: u64 = self.elapsed_ns(ns);
        let delta: i32 = match position {
            Some((cur, total)) => if elapsed > 500_000_000 && cur > 0 {
                let p: i128 = product(secs, cur);
                quotient_i32(p * 1_000_000_000, elapsed as i128)
            } else {
                quotient_i32(product(secs, total), 50)
            },
            None => 0,
        };
        ask(&mut out, Effect::SeekTicks(delta));
        // Nudge the readout so it tracks the seek.
        let t: i128 = elapsed as i128 + secs as i128 * 1_000_000_000;
        let to: u64 = if t < 0 {
            0
        } else if t > u64::MAX as i128 {
            u64::MAX
        } else {
            t as u64
        };
        self.shown.set(to, ns);
        out
    }

    pub fn volume_delta(&mut self, delta: i32) -> (r: Vec<Effect>)
        ensures
            old(self)@.wf() ==> final(self)@.wf(),
            final(self)@.volume == app::within(old(self)@.volume + delta, 0, 100),
            final(self)@ == (AppView { volume: final(self)@.volume, ..old(self)@ }),
            app::effects(r@) == seq![EffectView::SetGain(final(self)@.volume)],
    {
        let v: i64 = self.volume as i64 + delta as i64;
        let v: u8 = if v < 0 {
            0
        } else if v > 100 {
            100
        } else {
            v as u8
        };
        self.volume = v;
        let mut out: Vec<Effect> = Vec::new();
        ask(&mut out, Effect::SetGain(v));
        out
    }

    pub fn set_volume(&mut self, v: u8) -> (r: Vec<Effect>)
        ensures
            old(self)@.wf() ==> final(self)@.wf(),
            final(self)@ == (AppView {
                volume: if v <= 100 {
                    v
                } else {
                    100
                },
                ..old(self)@
            }),
            app::effects(r@) == seq![EffectView::SetGain(final(self)@.volume)],
    {
        self.volume = if v <= 100 {
            v
        } else {
            100
        };
        let mut out: Vec<Effect> = Vec::new();
        ask(&mut out, Effect::SetGain(self.volume));
        out
    }

    pub fn toggle_repeat(&mut self)
        ensures
            final(self)@ == (AppView {
                repeat: !old(self)@.repeat,
                message: Some("Repeat: "@ + app::on_off_text(!old(self)@.repeat)),
                ..old(self)@
            }),
    {
        self.repeat = !self.repeat;
        let mut m = "Repeat: ".to_owned();
        m.append(on_off(self.repeat));
        self.message = Some(m);
    }

    pub fn toggle_next_mode(&mut self)
        ensures
            final(self)@ == (AppView {
                next_mode: !old(self)@.next_mode,
                message: Some("Next: "@ + app::on_off_text(!old(self)@.next_mode)),
                ..old(self)@
            }),
    {
        self.next_mode = !self.next_mode;
        let mut m = "Next: ".to_owned();
        m.append(on_off(self.next_mode));
        self.message = Some(m);
    }

    /// Show the hidden files, or hide them again, in both panels.
    pub fn toggle_hidden(&mut self) -> (r: Vec<Effect>)
        ensures
            old(self)@.wf() ==> final(self)@.wf(),
            ({
                let show = !old(self)@.active_panel().show_hidden;
                final(self)@ == (AppView {
                    midi: BrowserView { show_hidden: show, ..old(self)@.midi },
                    sf2: BrowserView { show_hidden: show, ..old(self)@.sf2 },
                    ..old(self)@
                })
            }),
            app::effects(r@) == seq![
                EffectView::Refresh(Panel::Midi),
                EffectView::Refresh(Panel::Sf2),
            ],
    {
        let show = !self.focused().shows_hidden();
        // Keep both panels consistent.
        self.midi.set_hidden(show);
        self.sf2.set_hidden(show);
        let mut out: Vec<Effect> = Vec::new();
        ask(&mut out, Effect::Refresh(Panel::Midi));
        ask(&mut out, Effect::Refresh(Panel::Sf2));
        out
    }
}

// --- the readout ------------------------------------------------------------

/// How much of a song was played, as a fraction of its ticks.
pub open spec fn played(position: Option<(i32, i32)>) -> (int, int) {
    match position {
        Some((cur, total)) => if total > 0 {
            (app::within(cur as int, 0, total as int), total as int)
        } else {
            (0, 1)
        },
        None => (0, 1),
    }
}

/// The length of a song that is not known, from the time its fraction `p` has
/// taken; unknown as long as that is no more than a thousandth.
pub open spec fn estimate(elapsed: u64, p: (int, int)) -> Length {
    if p.0 * 1000 > p.1 {
        Length { num: (elapsed * p.1) as u128, den: (p.0 * 1_000_000_000) as u64 }
    } else {
        Length { num: 0, den: 1 }
    }
}

/// The bar and the beat at a tick, both counted from 1.
pub open spec fn bar_beat_of(tick: i32, info: MidiInfo) -> Option<(int, int)> {
    if info.division == 0 {
        None
    } else {
        let cur = if tick > 0 {
            tick as int
        } else {
            0
        };
        let quarter = info.division * 4 / if info.ts_den > 0 {
            info.ts_den as int
        } else {
            1
        };
        let beat = if quarter > 0 {
            quarter
        } else {
            1
        };
        let bar = beat * if info.ts_num > 0 {
            info.ts_num as int
        } else {
            1
        };
        Some((cur / bar + 1, (cur % bar) / beat + 1))
    }
}

/// Pure (bar, beat) computation, both 1-based. None for SMPTE/unknown division.
pub fn bar_beat_at(tick: i32, info: &MidiInfo) -> (r: Option<(u32, u32)>)
    ensures
        match bar_beat_of(tick, *info) {
            Some((bar, beat)) => r matches Some((x, y)) && x == bar && y == beat,
            None => r is None,
        },
{
    if info.division == 0 {
        return None;
    }
    let cur: u64 = if tick > 0 {
        tick as u64
    } else {
        0
    };
    let den: u64 = if info.ts_den > 0 {
        info.ts_den as u64
    } else {
        1
    };
    // Ticks per beat, where a "beat" is one denominator note.
    let quarter: u64 = info.division as u64 * 4 / den;
    let beat: u64 = if quarter > 0 {
        quarter
    } else {
        1
    };
    let num: u64 = if info.ts_num > 0 {
        info.ts_num as u64
    } else {
        1
    };
    proof {
        assert(quarter <= info.division * 4) by (nonlinear_arith)
            requires
                quarter == (info.division * 4) as int / den as int,
                den > 0,
        ;
        assert(0 < beat * num <= 262140 * 255) by (nonlinear_arith)
            requires
                0 < beat <= 262140,
                0 < num <= 255,
        ;
    }
    let bar: u64 = beat * num;
    proof {
        assert(cur as int / bar as int <= cur) by (nonlinear_arith)
            requires
                bar > 0,
                cur >= 0,
        ;
        assert(0 <= cur as int % bar as int <= cur) by (nonlinear_arith)
            requires
                bar > 0,
                cur >= 0,
        ;
        let m = cur as int % bar as int;
        assert(0 <= m / beat as int <= m) by (nonlinear_arith)
            requires
                beat > 0,
                m >= 0,
        ;
    }
    let a: u64 = cur / bar + 1;
    let b: u64 = (cur % bar) / beat + 1;
    Some((a as u32, b as u32))
}

impl AppView {
    /// The time played and the total: that of the file when it is known, and
    /// otherwise an estimate.
    pub open spec fn times_of(self, ns: u64, position: Option<(i32, i32)>) -> (Length, Length) {
        let guess = estimate(self.counted(ns), played(position));
        (
            Length { num: self.counted(ns) as u128, den: 1_000_000_000 },
            match self.cur_info {
                Some(info) => if info.length.num > 0 {
                    info.length
                } else {
                    guess
                },
                None => guess,
            },
        )
    }
}

impl App {
    /// Progress from the player's tick counters, as a fraction.
    pub fn progress(&self, position: Option<(i32, i32)>) -> (r: (u32, u32))
        ensures
            r.0 == played(position).0,
            r.1 == played(position).1,
    {
        match position {
            Some((cur, total)) => if total > 0 {
                (
                    if cur < 0 {
                        0
                    } else if cur > total {
                        total as u32
                    } else {
                        cur as u32
                    },
                    total as u32,
                )
            } else {
                (0, 1)
            },
            None => (0, 1),
        }
    }

    /// The time played and the total. The total is exact from the parsed file
    /// when available, otherwise estimated from elapsed time and progress.
    pub fn times(&self, ns: u64, position: Option<(i32, i32)>) -> (r: (Length, Length))
        ensures
            r == self@.times_of(ns, position),
    {
        let elapsed: u64 = self.elapsed_ns(ns);
        let (done, all) = self.progress(position);
        let total = match self.cur_info {
            Some(info) => if info.length.num > 0 {
                info.length
            } else {
                estimated(elapsed, done, all)
            },
            None => estimated(elapsed, done, all),
        };
        (Length { num: elapsed as u128, den: 1_000_000_000 }, total)
    }

    /// Current musical position as (bar, beat), both 1-based, if computable.
    pub fn bar_beat(&self, position: Option<(i32, i32)>) -> (r: Option<(u32, u32)>)
        ensures
            match (self@.cur_info, position) {
                (Some(info), Some(p)) => match bar_beat_of(p.0, info) {
                    Some((bar, beat)) => r matches Some((x, y)) && x == bar && y == beat,
                    None => r is None,
                },
                _ => r is None,
            },
    {
        match (self.cur_info, position) {
            (Some(info), Some(p)) => bar_beat_at(p.0, &info),
            _ => None,
        }
    }

    /// Time signature as (numerator, denominator), if known.
    pub fn time_signature(&self) -> (r: Option<(u8, u8)>)
        ensures
            r == (match self@.cur_info {
                Some(i) => Some((i.ts_num, i.ts_den)),
                None => None,
            }),
    {
        match self.cur_info {
            Some(i) => Some((i.ts_num, i.ts_den)),
            None => None,
        }
    }
}

fn estimated(elapsed: u64, done: u32, all: u32) -> (r: Length)
    requires
        done <= i32::MAX,
    ensures
        r == estimate(elapsed, (done as int, all as int)),
{
    if done as u64 * 1000 > all as u64 {
        proof {
            assert(0 <= elapsed * all <= 0x1_0000_0000_0000_0000 * 0x1_0000_0000) by (
            nonlinear_arith)
                requires
                    0 <= elapsed <= 0x1_0000_0000_0000_0000,
                    0 <= all <= 0x1_0000_0000,
            ;
        }
        Length { num: elapsed as u128 * all as u128, den: done as u64 * 1_000_000_000 }
    } else {
        Length { num: 0, den: 1 }
    }
}

// --- favourites (the `f` key) -----------------------------------------------

impl AppView {
    /// With the star on a pair toggled.
    pub open spec fn starred(self, midi: LocView, soundfont: LocView, now: u64) -> AppView {
        AppView {
            favs: FavouritesView {
                entries: favourites::toggled(self.favs.entries, midi, soundfont, now),
                dirty: true,
                ..self.favs
            },
            message: Some(
                if favourites::has_pair(self.favs.entries, midi, soundfont) {
                    "Unstarred: "@
                } else {
                    "★ "@
                } + midi.file_name() + " + "@ + soundfont.file_name(),
            ),
            ..self
        }
    }

    /// The star beside an entry of a panel.
    pub open spec fn star_of(self, panel: Panel, loc: LocView) -> Seq<char> {
        let (exact, some) = match panel {
            Panel::Midi => (
                self.soundfont matches Some(sf) && favourites::has_pair(
                    self.favs.entries,
                    loc,
                    sf,
                ),
                favourites::has_midi(self.favs.entries, loc),
            ),
            Panel::Sf2 => (
                self.now_playing matches Some(m) && favourites::has_pair(
                    self.favs.entries,
                    m,
                    loc,
                ),
                favourites::has_soundfont(self.favs.entries, loc),
            ),
        };
        if exact {
            "★"@
        } else if some {
            "☆"@
        } else {
            " "@
        }
    }
}

impl App {
    /// Star, or un-star, the pair being heard: the loaded track through the
    /// loaded SoundFont. A favourite is always a pair — the judgement worth
    /// keeping is "this tune through this font" — so both are required. The
    /// cursor is deliberately not consulted: in the ordinary flow it is on the
    /// playing track anyway, and when it is not, what you are hearing is what
    /// you mean. [`App::stop`] leaves `now_playing` set, so this still works on
    /// the track that just ended.
    pub fn toggle_favourite(&mut self, unix: u64) -> (r: Vec<Effect>)
        ensures
            old(self)@.wf() ==> final(self)@.wf(),
            match (old(self)@.now_playing, old(self)@.soundfont) {
                (Some(m), Some(sf)) => final(self)@ == old(self)@.starred(m, sf, unix)
                    && app::effects(r@) == seq![EffectView::SaveFavourites],
                _ => final(self)@ == old(self)@.saying(
                    "Nothing playing — a favourite is a track + SoundFont pair"@,
                ) && r@.len() == 0,
            },
    {
        let mut out: Vec<Effect> = Vec::new();
        match (clone_loc(&self.now_playing), clone_loc(&self.soundfont)) {
            (Some(m), Some(sf)) => self.star(m, sf, unix, &mut out),
            _ => self.say("Nothing playing — a favourite is a track + SoundFont pair"),
        }
        out
    }

    /// Toggle the star on one pair and report it. A star is an explicit act, so
    /// unlike the history it is stored at once, with no listening threshold.
    pub(crate) fn star(
        &mut self,
        midi: Location,
        soundfont: Location,
        unix: u64,
        out: &mut Vec<Effect>,
    )
        ensures
            final(self)@ == old(self)@.starred(midi@, soundfont@, unix),
            app::effects(final(out)@) == app::effects(old(out)@).push(EffectView::SaveFavourites),
    {
        let name = midi.file_name();
        let font = soundfont.file_name();
        let added = self.favs.toggle(midi, soundfont, unix);
        ask(out, Effect::SaveFavourites);
        let mut m = if added {
            "★ ".to_owned()
        } else {
            "Unstarred: ".to_owned()
        };
        m.append(name.as_str());
        m.append(" + ");
        m.append(font.as_str());
        self.message = Some(m);
    }

    /// The star to draw beside a browser entry: solid when this exact pair is
    /// starred, hollow when the item is starred in some other pairing, blank
    /// otherwise. The hollow star is what makes a pairs-only list readable
    /// while browsing — swap the font and the solid stars move, showing at a
    /// glance which combinations are already starred and which are new ground.
    pub fn star_for(&self, panel: Panel, loc: &Location) -> (r: &'static str)
        ensures
            r@ == self@.star_of(panel, loc@),
    {
        let (exact, some) = match panel {
            Panel::Midi => (
                match &self.soundfont {
                    Some(sf) => self.favs.is_pair(loc, sf),
                    None => false,
                },
                self.favs.has_track(loc),
            ),
            Panel::Sf2 => (
                match &self.now_playing {
                    Some(m) => self.favs.is_pair(m, loc),
                    None => false,
                },
                self.favs.has_font(loc),
            ),
        };
        if exact {
            "★"
        } else if some {
            "☆"
        } else {
            " "
        }
    }

    /// True when the pair being heard is starred, for the player-bar badge.
    pub fn current_is_favourite(&self) -> (r: bool)
        ensures
            r == (self@.now_playing matches Some(m) && self@.soundfont matches Some(sf)
                && favourites::has_pair(self@.favs.entries, m, sf)),
    {
        match (&self.now_playing, &self.soundfont) {
            (Some(m), Some(sf)) => self.favs.is_pair(m, sf),
            _ => false,
        }
    }
}

} // verus!
