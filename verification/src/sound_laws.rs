//! What is heard: which track sounds through which SoundFont once the outside
//! work that an operation asks for was done, and when it has been listened to.

use crate::app;
use crate::app::{AppView, EffectView, Panel, PlayState, Source, SourceView, WorldView};
use crate::browser;
use crate::browser::EntryView;
use crate::favourites;
use crate::history;
use crate::history::RowView;
use crate::host::HostView;
use crate::keys::Transport;
use crate::listing_laws;
use crate::overlay;
use crate::player;
use crate::playlist;
use crate::queue;
use crate::queue::{Origin, StepView};
use crate::vfs;
use crate::vfs::{ChildView, FileKind, LocView};
use vstd::prelude::*;

verus! {

// --- the synth --------------------------------------------------------------

/// What a synth does: the SoundFont it holds, and the track it plays with the
/// SoundFont it was started through.
#[verifier::ext_equal]
pub struct Sound {
    pub font: Option<LocView>,
    pub playing: Option<(LocView, Option<LocView>)>,
}

/// A synth once it was told to do one thing.
pub open spec fn told(s: Sound, e: EffectView) -> Sound {
    match e {
        EffectView::LoadFont { loc, .. } => Sound { font: Some(loc), ..s },
        EffectView::Play { loc, .. } => Sound { playing: Some((loc, s.font)), ..s },
        EffectView::StopSynth => Sound { playing: None, ..s },
        _ => s,
    }
}

/// A synth once it was told all of `fx`, in order.
pub open spec fn after(fx: Seq<EffectView>, s: Sound) -> Sound
    decreases fx.len(),
{
    if fx.len() == 0 {
        s
    } else {
        told(after(fx.drop_last(), s), fx.last())
    }
}

/// True when every font that `fx` loads is `loc`, kept in the history and as
/// the user's own, or neither.
pub open spec fn loads_only(fx: Seq<EffectView>, loc: LocView, chosen: bool) -> bool {
    forall|i: int|
        0 <= i < fx.len() ==> (#[trigger] fx[i] matches EffectView::LoadFont { loc: l, remember, adopt }
            ==> l == loc && remember == chosen && adopt == chosen)
}

/// True when `fx` loads no font.
pub open spec fn loads_none(fx: Seq<EffectView>) -> bool {
    forall|i: int| 0 <= i < fx.len() ==> #[trigger] fx[i] !is LoadFont
}

/// True when everything that `fx` starts is `loc`, counted as a play.
pub open spec fn plays_only(fx: Seq<EffectView>, loc: LocView) -> bool {
    forall|i: int|
        0 <= i < fx.len() ==> (#[trigger] fx[i] matches EffectView::Play { loc: l, count } ==> l
            == loc && count)
}

/// True when `fx` starts and stops nothing.
pub open spec fn plays_none(fx: Seq<EffectView>) -> bool {
    forall|i: int| 0 <= i < fx.len() ==> #[trigger] fx[i] !is Play && fx[i] !is StopSynth
}

/// True when `fx` points the panel at `loc`.
pub open spec fn points(fx: Seq<EffectView>, panel: Panel, loc: LocView) -> bool {
    exists|i: int| 0 <= i < fx.len() && #[trigger] fx[i] == (EffectView::Reveal { panel, loc })
}

/// Doing `a` and then `b`.
proof fn lemma_after(a: Seq<EffectView>, b: Seq<EffectView>, s: Sound)
    ensures
        after(a + b, s) == after(b, after(a, s)),
    decreases b.len(),
{
    if b.len() == 0 {
        assert(a + b =~= a);
    } else {
        assert((a + b).drop_last() =~= a + b.drop_last());
        lemma_after(a, b.drop_last(), s);
    }
}

/// Doing one thing.
proof fn lemma_after_one(e: EffectView, s: Sound)
    ensures
        after(seq![e], s) == told(s, e),
        after(seq![], s) == s,
{
    let fx = seq![e];
    assert(fx.drop_last() =~= seq![]);
    assert(after(fx.drop_last(), s) == s);
}

proof fn lemma_after_reveals(midi: Option<LocView>, sf2: Option<LocView>, s: Sound)
    ensures
        after(app::reveals(midi, sf2), s) == s,
        loads_none(app::reveals(midi, sf2)),
        plays_none(app::reveals(midi, sf2)),
        midi matches Some(m) ==> app::reveals(midi, sf2)[0] == (EffectView::Reveal {
            panel: Panel::Midi,
            loc: m,
        }),
        sf2 matches Some(f) ==> app::reveals(midi, sf2).last() == (EffectView::Reveal {
            panel: Panel::Sf2,
            loc: f,
        }),
        sf2 is Some || midi is Some ==> app::reveals(midi, sf2).len() > 0,
{
    let a: Seq<EffectView> = match midi {
        Some(loc) => seq![EffectView::Reveal { panel: Panel::Midi, loc }],
        None => seq![],
    };
    let b: Seq<EffectView> = match sf2 {
        Some(loc) => seq![EffectView::Reveal { panel: Panel::Sf2, loc }],
        None => seq![],
    };
    lemma_after(a, b, s);
    if a.len() > 0 {
        lemma_after_one(a[0], s);
        assert(a =~= seq![a[0]]);
    }
    if b.len() > 0 {
        lemma_after_one(b[0], s);
        assert(b =~= seq![b[0]]);
    }
}

// --- playing a row of a list ------------------------------------------------

/// The synth of an application: it holds the loaded SoundFont.
pub open spec fn synth_of(a: AppView, playing: Option<(LocView, Option<LocView>)>) -> Sound {
    Sound { font: a.soundfont, playing }
}

/// True when the overlay shows that store, with the cursor on `row`.
pub open spec fn on_row(a: AppView, source: Source, row: RowView) -> bool {
    a.overlay matches Some(o) && o.source == source && (o.at matches Some(i) && i < o.rows.len()
        && o.rows[i as int] == row)
}

/// What playing the pair (`m`, `sf`) does to the synth of `a`: the pair sounds,
/// its SoundFont is loaded before its track starts and only if another one (or
/// none) was loaded, both panels point at it, and its play counts.
pub open spec fn plays_pair(
    a: AppView,
    fx: Seq<EffectView>,
    m: LocView,
    sf: LocView,
    was: Option<(LocView, Option<LocView>)>,
) -> bool {
    let s = after(fx, synth_of(a, was));
    &&& s.playing matches Some((t, f)) && t == m && vfs::opt_key(f) == Some(sf.key())
    &&& vfs::opt_key(a.soundfont) != Some(sf.key()) ==> s.playing == Some((m, Some(sf)))
    &&& vfs::opt_key(a.soundfont) == Some(sf.key()) ==> loads_none(fx)
    &&& plays_only(fx, m)
    &&& fx.len() > 0 && fx.last() is Play
}

proof fn lemma_combination(
    a: AppView,
    m: LocView,
    sf: LocView,
    was: Option<(LocView, Option<LocView>)>,
)
    ensures
        plays_pair(a, a.combination_effects(Some(m), Some(sf)), m, sf, was),
        loads_only(a.combination_effects(Some(m), Some(sf)), sf, true),
        points(a.combination_effects(Some(m), Some(sf)), Panel::Midi, m),
        points(a.combination_effects(Some(m), Some(sf)), Panel::Sf2, sf),
{
    let fx = a.combination_effects(Some(m), Some(sf));
    let s = synth_of(a, was);
    let r = app::reveals(Some(m), Some(sf));
    let l: Seq<EffectView> = if vfs::opt_key(a.soundfont) != Some(sf.key()) {
        seq![EffectView::LoadFont { loc: sf, remember: true, adopt: true }]
    } else {
        seq![]
    };
    let p: Seq<EffectView> = seq![EffectView::Play { loc: m, count: true }];
    assert(fx == r + l + p);
    lemma_after(r + l, p, s);
    lemma_after(r, l, s);
    lemma_after_reveals(Some(m), Some(sf), s);
    lemma_after_one(EffectView::LoadFont { loc: sf, remember: true, adopt: true }, s);
    lemma_after_one(EffectView::Play { loc: m, count: true }, after(l, s));
    assert(fx[0] == r[0]);
    assert(fx[r.len() - 1] == r.last());
}

/// A history row is played back as it was: with both sides there its track
/// sounds through its SoundFont, which is loaded unless it is loaded already
/// and then becomes the user's, and the rows shown become the queue, at this
/// row.
pub proof fn lemma_history_row_sounds(
    a: AppView,
    row: RowView,
    m: LocView,
    sf: LocView,
    disk: Map<Seq<char>, FileKind>,
    was: Option<(LocView, Option<LocView>)>,
)
    requires
        on_row(a, Source::History, row),
        row.midi == Some(m),
        row.soundfont == Some(sf),
        m.is_present(disk),
        sf.is_present(disk),
    ensures
        plays_pair(a, a.overlay_activate_effects(disk), m, sf, was),
        loads_only(a.overlay_activate_effects(disk), sf, true),
        points(a.overlay_activate_effects(disk), Panel::Midi, m),
        points(a.overlay_activate_effects(disk), Panel::Sf2, sf),
        a.overlay_activated(disk).play_source == (SourceView::History {
            rows: (a.overlay->0).rows,
            view: (a.overlay->0).view,
            filter: (a.overlay->0).filter,
            idx: (a.overlay->0).at->0,
        }),
        a.overlay_activated(disk).message == a.message,
{
    lemma_combination(a, m, sf, was);
    let l = a.listening();
    assert(l.combination_effects(Some(m), Some(sf)) =~= a.combination_effects(Some(m), Some(sf)));
}

/// A history row with one side only: a track plays through whatever is loaded,
/// a SoundFont is loaded and nothing starts.
pub proof fn lemma_history_side_sounds(
    a: AppView,
    row: RowView,
    m: LocView,
    disk: Map<Seq<char>, FileKind>,
    was: Option<(LocView, Option<LocView>)>,
)
    requires
        on_row(a, Source::History, row),
        m.is_present(disk),
    ensures
        row.midi == Some(m) && row.soundfont is None ==> {
            let fx = a.overlay_activate_effects(disk);
            &&& after(fx, synth_of(a, was)).playing == Some((m, a.soundfont))
            &&& loads_none(fx)
            &&& plays_only(fx, m)
        },
        row.soundfont == Some(m) && row.midi is None ==> {
            let fx = a.overlay_activate_effects(disk);
            &&& vfs::opt_key(after(fx, synth_of(a, was)).font) == Some(m.key())
            &&& after(fx, synth_of(a, was)).playing == was
            &&& plays_none(fx)
            &&& loads_only(fx, m, true)
            &&& a.overlay_activated(disk).play_source is Directory
        },
{
    let l = a.listening();
    let fx = a.overlay_activate_effects(disk);
    let s = synth_of(a, was);
    let load = EffectView::LoadFont { loc: m, remember: true, adopt: true };
    let play = EffectView::Play { loc: m, count: true };
    if row.midi == Some(m) && row.soundfont is None {
        let r = app::reveals(Some(m), None);
        lemma_after_reveals(Some(m), None, s);
        assert(fx =~= r + seq![play]);
        lemma_after(r, seq![play], s);
        lemma_after_one(play, s);
    }
    if row.soundfont == Some(m) && row.midi is None {
        let r = app::reveals(None, Some(m));
        lemma_after_reveals(None, Some(m), s);
        if vfs::opt_key(a.soundfont) != Some(m.key()) {
            assert(fx =~= r + seq![load]);
            lemma_after(r, seq![load], s);
            lemma_after_one(load, s);
        } else {
            assert(fx =~= r);
        }
    }
}

/// A favourite is played back as the pair it is, and the favourites become the
/// queue, at this pair.
pub proof fn lemma_favourite_sounds(
    a: AppView,
    row: RowView,
    i: usize,
    disk: Map<Seq<char>, FileKind>,
    was: Option<(LocView, Option<LocView>)>,
)
    requires
        on_row(a, Source::Favourites, row),
        row.idxs.len() > 0,
        row.idxs[0] == i,
        i < a.favs.entries.len(),
        a.favs.entries[i as int].midi.is_present(disk),
        a.favs.entries[i as int].soundfont.is_present(disk),
    ensures
        ({
            let f = a.favs.entries[i as int];
            let fx = a.overlay_activate_effects(disk);
            &&& plays_pair(a, fx, f.midi, f.soundfont, was)
            &&& loads_only(fx, f.soundfont, true)
            &&& points(fx, Panel::Midi, f.midi)
            &&& points(fx, Panel::Sf2, f.soundfont)
            &&& a.overlay_activated(disk).play_source == (SourceView::Favourites {
                midi: f.midi,
                soundfont: f.soundfont,
                idx: i,
            })
        }),
{
    let f = a.favs.entries[i as int];
    lemma_combination(a, f.midi, f.soundfont, was);
    let l = a.listening();
    assert(l.combination_effects(Some(f.midi), Some(f.soundfont)) =~= a.combination_effects(
        Some(f.midi),
        Some(f.soundfont),
    ));
}

/// A row a side of which has gone plays nothing and loads nothing, and leaves
/// what sounds as it was.
pub proof fn lemma_gone_row_is_silent(
    a: AppView,
    row: RowView,
    disk: Map<Seq<char>, FileKind>,
    was: Option<(LocView, Option<LocView>)>,
)
    requires
        on_row(a, Source::History, row),
        (row.midi matches Some(m) && !m.is_present(disk)) || (row.soundfont matches Some(f)
            && !f.is_present(disk)),
    ensures
        a.overlay_activate_effects(disk).len() == 0,
        after(a.overlay_activate_effects(disk), synth_of(a, was)) == synth_of(a, was),
        a.overlay_activated(disk).message is Some,
{
}

// --- what follows in the queue ----------------------------------------------

/// A step of the queue sounds: its track through its own SoundFont, or through
/// the loaded one where it names none. What it loads stays out of the history
/// and is not taken for the user's choice.
proof fn lemma_step_sounds(
    a: AppView,
    s: StepView,
    was: Option<(LocView, Option<LocView>)>,
)
    ensures
        s.soundfont matches Some(sf) ==> plays_pair(a, a.step_effects(s), s.midi, sf, was)
            && loads_only(a.step_effects(s), sf, false),
        s.soundfont is None ==> after(a.step_effects(s), synth_of(a, was)).playing == Some(
            (s.midi, a.soundfont),
        ) && loads_none(a.step_effects(s)) && plays_only(a.step_effects(s), s.midi),
{
    let fx = a.step_effects(s);
    let x = synth_of(a, was);
    let l = a.step_font_effects(s);
    let r = a.step_reveal_effects(s);
    let play = EffectView::Play { loc: s.midi, count: true };
    assert(fx =~= l + r + seq![play]);
    lemma_after(l + r, seq![play], x);
    lemma_after(l, r, x);
    lemma_after_reveals(Some(s.midi), s.soundfont, after(l, x));
    lemma_after_one(play, after(l, x));
    match s.soundfont {
        Some(sf) => {
            lemma_after_one(EffectView::LoadFont { loc: sf, remember: false, adopt: false }, x);
        },
        None => {},
    }
}

/// A playlist item plays through its own SoundFont or, where it has none,
/// through the user's, whatever an item before it loaded.
pub proof fn lemma_item_sounds(
    a: AppView,
    row: RowView,
    i: usize,
    sf: LocView,
    disk: Map<Seq<char>, FileKind>,
    was: Option<(LocView, Option<LocView>)>,
)
    requires
        on_row(a, Source::Playlist, row),
        row.idxs.len() > 0,
        row.idxs[0] == i,
        i < a.playlist.items.len(),
        a.playlist.items[i as int].soundfont == Some(sf) || (
        a.playlist.items[i as int].soundfont is None && a.user_font == Some(sf)),
        sf.is_present(disk),
        a.playlist.items[i as int].midi.is_present(disk),
    ensures
        ({
            let fx = a.overlay_activate_effects(disk);
            &&& plays_pair(a, fx, a.playlist.items[i as int].midi, sf, was)
            &&& loads_only(fx, sf, false)
            &&& a.overlay_activated(disk).play_source == (SourceView::Playlist {
                id: a.playlist.ids[i as int],
                idx: i,
            })
        }),
{
    let l = a.listening();
    let s = l.item_step(i as int);
    lemma_step_sounds(l, s, was);
    assert(a.overlay_activate_effects(disk) == l.step_effects(s));
}

/// A playlist item with neither a SoundFont of its own nor a user's to fall
/// back on plays nothing and says so.
pub proof fn lemma_item_without_a_font(
    a: AppView,
    row: RowView,
    i: usize,
    disk: Map<Seq<char>, FileKind>,
)
    requires
        on_row(a, Source::Playlist, row),
        row.idxs.len() > 0,
        row.idxs[0] == i,
        i < a.playlist.items.len(),
        a.playlist.items[i as int].soundfont is None,
        a.user_font is None,
    ensures
        a.overlay_activate_effects(disk).len() == 0,
        a.overlay_activated(disk).message == Some(
            "This item has no SoundFont of its own — load one in the right panel first"@,
        ),
        a.overlay_activated(disk).play_source == a.play_source,
{
}

/// The place `k` on from `at` in a list of `n`, from the front again past its
/// end.
pub open spec fn place(at: int, k: int, n: int) -> int {
    if at + k < n {
        at + k
    } else {
        at + k - n
    }
}

/// True when `d` on from `at` is the first of the places that a pass through a
/// list of `n` comes to, from `first` on, that is `ok`. The pass ends with the
/// list, or goes once round in repeat mode.
pub open spec fn comes_to(
    ok: spec_fn(int) -> bool,
    at: int,
    first: int,
    d: int,
    n: int,
    repeat: bool,
) -> bool {
    &&& first <= d < first + n
    &&& at + d < n || repeat
    &&& ok(place(at, d, n))
    &&& forall|k: int| first <= k < d ==> !ok(#[trigger] place(at, k, n))
}

/// True when such a pass comes to no place that is `ok`.
pub open spec fn comes_to_none(
    ok: spec_fn(int) -> bool,
    at: int,
    first: int,
    n: int,
    repeat: bool,
) -> bool {
    forall|k: int|
        first <= k < first + n && (at + k < n || repeat) ==> !ok(#[trigger] place(at, k, n))
}

proof fn lemma_walk_comes_to(
    ok: spec_fn(int) -> bool,
    at: int,
    k: int,
    first: int,
    d: int,
    n: int,
    repeat: bool,
)
    requires
        0 <= at,
        at + first <= n,
        0 <= first <= k <= d,
        comes_to(ok, at, first, d, n, repeat),
    ensures
        queue::walk(ok, at, k, first + n, n, repeat) == Some(place(at, d, n)),
    decreases d - k,
{
    assert(at + k >= n ==> (at + k) % n == at + k - n) by (nonlinear_arith)
        requires
            0 <= at + k < 2 * n,
    ;
    assert(queue::slot(at + k, n, repeat) == Some(place(at, k, n)));
    if k < d {
        lemma_walk_comes_to(ok, at, k + 1, first, d, n, repeat);
    }
}

proof fn lemma_walk_comes_to_none(
    ok: spec_fn(int) -> bool,
    at: int,
    k: int,
    first: int,
    n: int,
    repeat: bool,
)
    requires
        0 <= at,
        at + first <= n,
        0 <= first <= k,
        comes_to_none(ok, at, first, n, repeat),
    ensures
        queue::walk(ok, at, k, first + n, n, repeat) is None,
    decreases first + n - k,
{
    if k < first + n {
        assert(at + k >= n ==> (at + k) % n == at + k - n) by (nonlinear_arith)
            requires
                0 <= at + k < 2 * n,
        ;
        if at + k < n || repeat {
            assert(queue::slot(at + k, n, repeat) == Some(place(at, k, n)));
            lemma_walk_comes_to_none(ok, at, k + 1, first, n, repeat);
        }
    }
}

/// True when the current track has come to its end with next mode on, and the
/// list that is the queue, if one is, shows.
pub open spec fn moves_on(a: AppView, cur: LocView, source: Option<Source>) -> bool {
    &&& a.state == PlayState::Playing
    &&& a.now_playing == Some(cur)
    &&& a.next_mode
    &&& source matches Some(x) ==> (a.overlay matches Some(o) && o.source == x)
}

/// What sounds once the queue moved on to a track, through the SoundFont that
/// goes with it or the one that is loaded.
pub open spec fn sounds_next(
    a: AppView,
    fx: Seq<EffectView>,
    midi: LocView,
    soundfont: Option<LocView>,
    was: Option<(LocView, Option<LocView>)>,
) -> bool {
    let s = after(fx, synth_of(a, was));
    &&& s.playing matches Some((t, f)) && t == midi && match soundfont {
        Some(sf) => vfs::opt_key(f) == Some(sf.key()),
        None => f == a.soundfont,
    }
    &&& plays_only(fx, midi)
    &&& soundfont matches Some(sf) ==> loads_only(fx, sf, false)
    &&& soundfont is None ==> loads_none(fx)
}

proof fn lemma_commit_is_silent(a: AppView, ns: u64, s: Sound)
    ensures
        after(a.commit_effects(ns), s) == s,
        loads_none(a.commit_effects(ns)),
        plays_none(a.commit_effects(ns)),
{
    lemma_after_one(EffectView::SaveHistory, s);
}

proof fn lemma_tick_steps(
    a: AppView,
    cur: LocView,
    step: StepView,
    siblings: Seq<ChildView>,
    w: WorldView,
    was: Option<(LocView, Option<LocView>)>,
)
    requires
        a.state == PlayState::Playing,
        a.now_playing == Some(cur),
        a.next_mode,
        a.committed(w).next_in_source(cur, siblings, w.disk) == Some(step),
    ensures
        sounds_next(a, a.tick_effects(true, siblings, w), step.midi, step.soundfont, was),
        a.ticked(true, siblings, w).play_source == a.committed(w).stepped(step).play_source,
        a.ticked(true, siblings, w).state == PlayState::Playing,
{
    let c = a.committed(w);
    app::lemma_commit_frame(a, w);
    let fx = a.tick_effects(true, siblings, w);
    assert(fx == a.commit_effects(w.ns) + c.step_effects(step));
    lemma_after(a.commit_effects(w.ns), c.step_effects(step), synth_of(a, was));
    lemma_commit_is_silent(a, w.ns, synth_of(a, was));
    lemma_step_sounds(c, step, was);
}

proof fn lemma_tick_stops(
    a: AppView,
    cur: LocView,
    siblings: Seq<ChildView>,
    w: WorldView,
    was: Option<(LocView, Option<LocView>)>,
)
    requires
        a.state == PlayState::Playing,
        a.now_playing == Some(cur),
        a.next_mode ==> a.committed(w).next_in_source(cur, siblings, w.disk) is None,
        a.next_mode || !a.repeat,
    ensures
        after(a.tick_effects(true, siblings, w), synth_of(a, was)) == synth_of(a, None),
        a.ticked(true, siblings, w).state == PlayState::Stopped,
{
    let c = a.committed(w);
    app::lemma_commit_frame(a, w);
    let x = a.commit_effects(w.ns);
    let y = c.commit_effects(w.ns);
    let z = seq![EffectView::StopSynth];
    let s = synth_of(a, was);
    assert(a.tick_effects(true, siblings, w) =~= x + (y + z));
    lemma_after(x, y + z, s);
    lemma_after(y, z, s);
    lemma_commit_is_silent(a, w.ns, s);
    lemma_commit_is_silent(c, w.ns, s);
    lemma_after_one(EffectView::StopSynth, s);
}

/// True when a history row can play: it has a track, and what it names is
/// there.
pub open spec fn row_plays(row: RowView, disk: Map<Seq<char>, FileKind>) -> bool {
    &&& row.midi matches Some(m) && m.is_present(disk)
    &&& row.soundfont matches Some(f) ==> f.is_present(disk)
}

/// The history, as it was shown when the queue began, plays on row by row: at
/// the end of a track the next row that can play sounds, with its SoundFont,
/// and is where the queue then is.
pub proof fn lemma_history_queue_goes_on(
    a: AppView,
    cur: LocView,
    i: int,
    d: int,
    siblings: Seq<ChildView>,
    w: WorldView,
    was: Option<(LocView, Option<LocView>)>,
)
    requires
        moves_on(a, cur, Some(Source::History)),
        a.play_source matches SourceView::History { rows, idx, .. } && idx == i && i < rows.len()
            <= usize::MAX && comes_to(
            |k: int| row_plays(rows[k], w.disk),
            i,
            1,
            d,
            rows.len() as int,
            a.repeat,
        ),
    ensures
        ({
            let rows = a.play_source->rows;
            let j = place(i, d, rows.len() as int);
            let r = a.ticked(true, siblings, w);
            &&& sounds_next(
                a,
                a.tick_effects(true, siblings, w),
                rows[j].midi->0,
                rows[j].soundfont,
                was,
            )
            &&& r.play_source matches SourceView::History { rows: rr, view, filter, idx } && rr
                == rows && view == a.play_source->view && filter == a.play_source->filter && idx
                == j
            &&& r.state == PlayState::Playing
        }),
{
    let c = a.committed(w);
    app::lemma_commit_frame(a, w);
    let rows = a.play_source->rows;
    let n = rows.len() as int;
    let ok = |k: int| AppView::row_ready(rows, k, w.disk);
    assert(ok =~= (|k: int| row_plays(rows[k], w.disk)));
    lemma_walk_comes_to(ok, i, 1, 1, d, n, a.repeat);
    let j = place(i, d, n);
    let step = StepView {
        midi: rows[j].midi->0,
        soundfont: rows[j].soundfont,
        origin: Origin::History(j as usize),
    };
    assert(c.next_in_source(cur, siblings, w.disk) == Some(step));
    lemma_tick_steps(a, cur, step, siblings, w, was);
}

/// After its last row that can play, the history is over: the synth stops.
pub proof fn lemma_history_queue_ends(
    a: AppView,
    cur: LocView,
    i: int,
    siblings: Seq<ChildView>,
    w: WorldView,
    was: Option<(LocView, Option<LocView>)>,
)
    requires
        moves_on(a, cur, Some(Source::History)),
        a.play_source matches SourceView::History { rows, idx, .. } && idx == i && i < rows.len()
            && comes_to_none(
            |k: int| row_plays(rows[k], w.disk),
            i,
            1,
            rows.len() as int,
            a.repeat,
        ),
    ensures
        after(a.tick_effects(true, siblings, w), synth_of(a, was)) == synth_of(a, None),
        a.ticked(true, siblings, w).state == PlayState::Stopped,
{
    let c = a.committed(w);
    app::lemma_commit_frame(a, w);
    let rows = a.play_source->rows;
    let ok = |k: int| AppView::row_ready(rows, k, w.disk);
    assert(ok =~= (|k: int| row_plays(rows[k], w.disk)));
    lemma_walk_comes_to_none(ok, i, 1, 1, rows.len() as int, a.repeat);
    lemma_tick_stops(a, cur, siblings, w, was);
}

/// Where the favourites go on from: past the pair that played, wherever it now
/// is among them, or with what stands in its old place once it was un-starred.
pub open spec fn fav_queue_at(a: AppView, at: int, first: int) -> bool {
    a.play_source matches SourceView::Favourites { midi, soundfont, idx } && {
        let v = a.favs.entries;
        ||| first == 1 && 0 <= at < v.len() && v[at].key() == (midi.key(), soundfont.key())
            && forall|k: int| 0 <= k < at ==> (#[trigger] v[k]).key() != (midi.key(), soundfont.key())
        ||| first == 0 && at == idx && forall|k: int|
            0 <= k < v.len() ==> (#[trigger] v[k]).key() != (midi.key(), soundfont.key())
    }
}

proof fn lemma_fav_queue_at(a: AppView, at: int, first: int)
    requires
        fav_queue_at(a, at, first),
    ensures
        a.play_source matches SourceView::Favourites { midi, soundfont, idx } && a.fav_from(
            midi,
            soundfont,
            idx as int,
        ) == (at, first),
{
    let v = a.favs.entries;
    match a.play_source {
        SourceView::Favourites { midi, soundfont, idx } => {
            favourites::lemma_find_fav(v, (midi.key(), soundfont.key()));
        },
        _ => {},
    }
}

/// The favourites play on pair by pair: at the end of a track the next pair
/// both sides of which are there sounds, and is where the queue then is.
pub proof fn lemma_favourites_queue_goes_on(
    a: AppView,
    cur: LocView,
    at: int,
    first: int,
    d: int,
    siblings: Seq<ChildView>,
    w: WorldView,
    was: Option<(LocView, Option<LocView>)>,
)
    requires
        moves_on(a, cur, Some(Source::Favourites)),
        fav_queue_at(a, at, first),
        at <= a.favs.entries.len() <= usize::MAX,
        comes_to(
            |k: int|
                a.favs.entries[k].midi.is_present(w.disk) && a.favs.entries[k].soundfont.is_present(
                    w.disk,
                ),
            at,
            first,
            d,
            a.favs.entries.len() as int,
            a.repeat,
        ),
    ensures
        ({
            let j = place(at, d, a.favs.entries.len() as int);
            let f = a.favs.entries[j];
            let r = a.ticked(true, siblings, w);
            &&& sounds_next(
                a,
                a.tick_effects(true, siblings, w),
                f.midi,
                Some(f.soundfont),
                was,
            )
            &&& r.play_source matches SourceView::Favourites { midi, soundfont, idx } && midi
                == f.midi && soundfont == f.soundfont && idx == j
        }),
{
    let c = a.committed(w);
    app::lemma_commit_frame(a, w);
    let n = a.favs.entries.len() as int;
    let ok = |k: int| c.fav_ready(k, w.disk);
    assert(ok =~= (|k: int|
        a.favs.entries[k].midi.is_present(w.disk) && a.favs.entries[k].soundfont.is_present(
            w.disk,
        )));
    lemma_fav_queue_at(c, at, first);
    lemma_walk_comes_to(ok, at, first, first, d, n, a.repeat);
    let j = place(at, d, n);
    let step = StepView {
        midi: a.favs.entries[j].midi,
        soundfont: Some(a.favs.entries[j].soundfont),
        origin: Origin::Favourite(j as usize),
    };
    assert(c.next_in_source(cur, siblings, w.disk) == Some(step));
    lemma_tick_steps(a, cur, step, siblings, w, was);
}

/// After the last pair that can play, the favourites are over: the synth stops.
pub proof fn lemma_favourites_queue_ends(
    a: AppView,
    cur: LocView,
    at: int,
    first: int,
    siblings: Seq<ChildView>,
    w: WorldView,
    was: Option<(LocView, Option<LocView>)>,
)
    requires
        moves_on(a, cur, Some(Source::Favourites)),
        fav_queue_at(a, at, first),
        at <= a.favs.entries.len(),
        comes_to_none(
            |k: int|
                a.favs.entries[k].midi.is_present(w.disk) && a.favs.entries[k].soundfont.is_present(
                    w.disk,
                ),
            at,
            first,
            a.favs.entries.len() as int,
            a.repeat,
        ),
    ensures
        after(a.tick_effects(true, siblings, w), synth_of(a, was)) == synth_of(a, None),
        a.ticked(true, siblings, w).state == PlayState::Stopped,
{
    let c = a.committed(w);
    app::lemma_commit_frame(a, w);
    let n = a.favs.entries.len() as int;
    let ok = |k: int| c.fav_ready(k, w.disk);
    assert(ok =~= (|k: int|
        a.favs.entries[k].midi.is_present(w.disk) && a.favs.entries[k].soundfont.is_present(
            w.disk,
        )));
    lemma_fav_queue_at(c, at, first);
    lemma_walk_comes_to_none(ok, at, first, first, n, a.repeat);
    lemma_tick_stops(a, cur, siblings, w, was);
}

/// The SoundFont a playlist item plays through: its own before the user's.
pub open spec fn font_of_item(a: AppView, k: int) -> Option<LocView> {
    if a.playlist.items[k].soundfont is Some {
        a.playlist.items[k].soundfont
    } else {
        a.user_font
    }
}

/// True when a playlist item can play: it has a SoundFont to play through, and
/// both are there.
pub open spec fn item_plays(a: AppView, k: int, disk: Map<Seq<char>, FileKind>) -> bool {
    &&& font_of_item(a, k) matches Some(f) && f.is_present(disk)
    &&& a.playlist.items[k].midi.is_present(disk)
}

/// Where the playlist goes on from: past the item that played, wherever it now
/// is, or with what stands in its old place once it was taken out.
pub open spec fn item_queue_at(a: AppView, at: int, first: int) -> bool {
    a.play_source matches SourceView::Playlist { id, idx } && {
        ||| first == 1 && 0 <= at < a.playlist.ids.len() && a.playlist.ids[at] == id
        ||| first == 0 && at == idx && !a.playlist.ids.contains(id)
    }
}

proof fn lemma_item_queue_at(a: AppView, at: int, first: int)
    requires
        item_queue_at(a, at, first),
        a.playlist.wf(),
    ensures
        a.play_source matches SourceView::Playlist { id, idx } && a.item_from(id, idx as int) == (
            at,
            first,
        ),
{
    match a.play_source {
        SourceView::Playlist { id, idx } => {
            playlist::lemma_find_id(a.playlist.ids, id);
            let p = playlist::find_id(a.playlist.ids, id);
            if p < a.playlist.ids.len() {
                assert(a.playlist.ids.contains(a.playlist.ids[p]));
            }
        },
        _ => {},
    }
}

/// The playlist plays on item by item: at the end of a track the next item that
/// can play sounds through its SoundFont, and is where the queue then is.
pub proof fn lemma_playlist_queue_goes_on(
    a: AppView,
    cur: LocView,
    at: int,
    first: int,
    d: int,
    siblings: Seq<ChildView>,
    w: WorldView,
    was: Option<(LocView, Option<LocView>)>,
)
    requires
        moves_on(a, cur, Some(Source::Playlist)),
        a.playlist.wf(),
        item_queue_at(a, at, first),
        at <= a.playlist.items.len() <= usize::MAX,
        comes_to(
            |k: int| item_plays(a, k, w.disk),
            at,
            first,
            d,
            a.playlist.items.len() as int,
            a.repeat,
        ),
    ensures
        ({
            let j = place(at, d, a.playlist.items.len() as int);
            let r = a.ticked(true, siblings, w);
            &&& sounds_next(
                a,
                a.tick_effects(true, siblings, w),
                a.playlist.items[j].midi,
                font_of_item(a, j),
                was,
            )
            &&& r.play_source matches SourceView::Playlist { id, idx } && id == a.playlist.ids[j]
                && idx == j
            &&& r.user_font == a.user_font
        }),
{
    let c = a.committed(w);
    app::lemma_commit_frame(a, w);
    let n = a.playlist.items.len() as int;
    let ok = |k: int| c.item_ready(k, w.disk);
    assert(ok =~= (|k: int| item_plays(a, k, w.disk)));
    lemma_item_queue_at(c, at, first);
    lemma_walk_comes_to(ok, at, first, first, d, n, a.repeat);
    let step = c.item_step(place(at, d, n));
    assert(c.next_in_source(cur, siblings, w.disk) == Some(step));
    lemma_tick_steps(a, cur, step, siblings, w, was);
}

/// After the last item that can play, the playlist is over: the synth stops.
pub proof fn lemma_playlist_queue_ends(
    a: AppView,
    cur: LocView,
    at: int,
    first: int,
    siblings: Seq<ChildView>,
    w: WorldView,
    was: Option<(LocView, Option<LocView>)>,
)
    requires
        moves_on(a, cur, Some(Source::Playlist)),
        a.playlist.wf(),
        item_queue_at(a, at, first),
        at <= a.playlist.items.len(),
        comes_to_none(
            |k: int| item_plays(a, k, w.disk),
            at,
            first,
            a.playlist.items.len() as int,
            a.repeat,
        ),
    ensures
        after(a.tick_effects(true, siblings, w), synth_of(a, was)) == synth_of(a, None),
        a.ticked(true, siblings, w).state == PlayState::Stopped,
{
    let c = a.committed(w);
    app::lemma_commit_frame(a, w);
    let ok = |k: int| c.item_ready(k, w.disk);
    assert(ok =~= (|k: int| item_plays(a, k, w.disk)));
    lemma_item_queue_at(c, at, first);
    lemma_walk_comes_to_none(ok, at, first, first, a.playlist.items.len() as int, a.repeat);
    lemma_tick_stops(a, cur, siblings, w, was);
}

/// The end of a track by the modes: with neither on the synth stops; with
/// repeat alone the same track sounds again, without counting another play;
/// with next on and the queue's list closed the synth stops.
pub proof fn lemma_modes_at_the_end(
    a: AppView,
    cur: LocView,
    siblings: Seq<ChildView>,
    w: WorldView,
    was: Option<(LocView, Option<LocView>)>,
)
    requires
        a.state == PlayState::Playing,
        a.now_playing == Some(cur),
    ensures
        ({
            let fx = a.tick_effects(true, siblings, w);
            let r = a.ticked(true, siblings, w);
            let s = after(fx, synth_of(a, was));
            &&& !a.next_mode && !a.repeat ==> s == synth_of(a, None) && r.state
                == PlayState::Stopped
            &&& !a.next_mode && a.repeat ==> s.playing == Some((cur, a.soundfont)) && loads_none(fx)
                && fx.last() == (EffectView::Play { loc: cur, count: false }) && r.state
                == PlayState::Playing
            &&& a.next_mode && a.play_source !is Directory && a.overlay is None ==> s == synth_of(
                a,
                None,
            ) && r.state == PlayState::Stopped
        }),
{
    let c = a.committed(w);
    app::lemma_commit_frame(a, w);
    let s = synth_of(a, was);
    if !a.next_mode && a.repeat {
        let p = seq![EffectView::Play { loc: cur, count: false }];
        lemma_after(a.commit_effects(w.ns), p, s);
        lemma_commit_is_silent(a, w.ns, s);
        lemma_after_one(EffectView::Play { loc: cur, count: false }, s);
    }
    if !a.next_mode && !a.repeat {
        lemma_tick_stops(a, cur, siblings, w, was);
    }
    if a.next_mode && a.play_source !is Directory && a.overlay is None {
        lemma_tick_stops(a, cur, siblings, w, was);
    }
}

/// While the synth is not done, or nothing plays, a moment that passes changes
/// nothing of what sounds.
pub proof fn lemma_tick_is_silent(
    a: AppView,
    finished: bool,
    siblings: Seq<ChildView>,
    w: WorldView,
    s: Sound,
)
    requires
        a.state != PlayState::Playing || !finished,
    ensures
        after(a.tick_effects(finished, siblings, w), s) == s,
        a.ticked(finished, siblings, w).state == a.state,
        a.ticked(finished, siblings, w).now_playing == a.now_playing,
        a.ticked(finished, siblings, w).play_source == a.play_source,
{
    app::lemma_commit_frame(a, w);
    lemma_commit_is_silent(a, w.ns, s);
    assert(a.tick_effects(finished, siblings, w) =~= a.commit_effects(w.ns));
}


// --- the panels and the player's keys ---------------------------------------

/// Enter on a file plays it through the loaded SoundFont, or loads it, by the
/// panel it stands in, and hands the queue to its directory; Enter on a
/// directory changes nothing of what sounds.
pub proof fn lemma_panel_row_sounds(
    a: AppView,
    e: EntryView,
    host: HostView,
    was: Option<(LocView, Option<LocView>)>,
)
    requires
        a.active_panel().at matches Some(i) && i < a.active_panel().entries.len()
            && a.active_panel().entries[i as int] == e,
    ensures
        ({
            let fx = a.activate_effects(host);
            let s = after(fx, synth_of(a, was));
            &&& e.is_dir ==> s == synth_of(a, was) && fx == seq![EffectView::EnterDir(a.active)]
            &&& !e.is_dir && a.active == Panel::Sf2 ==> s.font == Some(e.loc) && s.playing == was
                && loads_only(fx, e.loc, true)
            &&& !e.is_dir && a.active == Panel::Midi && !listing_laws::is_playlist_name(e.loc.file_name(), true) ==> s.playing == Some(
                (e.loc, a.soundfont),
            ) && loads_none(fx) && plays_only(fx, e.loc) && a.activated(host).play_source
                is Directory
            &&& !e.is_dir && a.active == Panel::Midi && listing_laws::is_playlist_name(e.loc.file_name(), true) ==> s == synth_of(a, was)
        }),
{
    let s = synth_of(a, was);
    listing_laws::lemma_extensions(e.loc.file_name());
    lemma_after_one(EffectView::EnterDir(a.active), s);
    lemma_after_one(EffectView::LoadFont { loc: e.loc, remember: true, adopt: true }, s);
    lemma_after_one(EffectView::Play { loc: e.loc, count: true }, s);
    match e.loc {
        LocView::Fs(p) => {
            lemma_after_one(
                EffectView::OpenPlaylist { path: crate::host::absolute_text(p, host.cwd) },
                s,
            );
        },
        _ => {},
    }
}

/// Stopping stops the synth and nothing else does: pausing and resuming, moving
/// to another place, the volume and the modes leave the track on.
pub proof fn lemma_player_keys_sound(
    a: AppView,
    t: Transport,
    w: WorldView,
    position: Option<(i32, i32)>,
    was: Option<(LocView, Option<LocView>)>,
)
    ensures
        ({
            let fx = a.transport_effects(t, w, position);
            let s = after(fx, synth_of(a, was));
            &&& t == Transport::Stop && a.state != PlayState::Stopped ==> s == synth_of(a, None)
            &&& t != Transport::Stop || a.state == PlayState::Stopped ==> s == synth_of(a, was)
            &&& t == Transport::Pause ==> fx == match a.state {
                PlayState::Playing => seq![EffectView::PauseSynth],
                PlayState::Paused => seq![EffectView::ResumeSynth],
                PlayState::Stopped => seq![],
            }
            &&& t == Transport::Pause ==> a.transported(t, w).state == match a.state {
                PlayState::Playing => PlayState::Paused,
                PlayState::Paused => PlayState::Playing,
                PlayState::Stopped => PlayState::Stopped,
            }
            &&& t == Transport::Stop ==> a.transported(t, w).state == PlayState::Stopped
            &&& t != Transport::Stop && t != Transport::Pause ==> a.transported(t, w).state
                == a.state
        }),
{
    let s = synth_of(a, was);
    let fx = a.transport_effects(t, w, position);
    match t {
        Transport::Stop => {
            app::lemma_commit_frame(a, w);
            if a.state != PlayState::Stopped {
                let z = seq![EffectView::StopSynth];
                assert(fx =~= a.commit_effects(w.ns) + z);
                lemma_after(a.commit_effects(w.ns), z, s);
                lemma_commit_is_silent(a, w.ns, s);
                lemma_after_one(EffectView::StopSynth, s);
            }
        },
        _ => {
            if fx.len() > 0 {
                assert(fx.len() == 1);
                assert(fx =~= seq![fx[0]]);
                lemma_after_one(fx[0], s);
            }
        },
    }
}

// --- how long it was listened to --------------------------------------------

/// A started track, with the loaded SoundFont, waits for the history, and is
/// due once it was heard for five seconds since it started.
pub proof fn lemma_track_is_heard_from_its_start(
    a: AppView,
    loc: LocView,
    count: bool,
    info: Option<crate::midi::MidiInfo>,
    w: WorldView,
    ns: u64,
)
    requires
        w.ns <= ns,
    ensures
        ({
            let b = a.with_track(loc, count, info, w);
            &&& b.pending matches Some(p) && p.midi == Some(loc) && p.soundfont == a.soundfont
                && p.count == count
            &&& b.due(ns) <==> ns - w.ns >= 5_000_000_000
            &&& b.state == PlayState::Playing
            &&& b.now_playing == Some(loc)
            &&& b.last_played == Some(loc)
            &&& b.counted(ns) == ns - w.ns
        }),
{
    app::lemma_commit_frame(a, w);
}

/// A SoundFont chosen under a track that is on makes a new pair with it, which
/// is due once it was heard for five seconds itself: what the track was heard
/// through another SoundFont does not count for it.
pub proof fn lemma_font_is_heard_anew(
    a: AppView,
    m: LocView,
    loc: LocView,
    adopt: bool,
    w: WorldView,
    ns: u64,
)
    requires
        a.state != PlayState::Stopped,
        a.now_playing == Some(m),
        a.heard.time(w.ns) <= u64::MAX,
    ensures
        ({
            let b = a.with_font(loc, true, adopt, w);
            &&& b.pending matches Some(p) && p.midi == Some(m) && p.soundfont == Some(loc)
                && p.count
            &&& b.due(ns) <==> a.heard.time(ns) - a.heard.time(w.ns) >= 5_000_000_000
            &&& a.heard.since_ns matches Some(t) ==> (t <= w.ns <= ns ==> (b.due(ns) <==> ns
                - w.ns >= 5_000_000_000))
            &&& b.soundfont == Some(loc)
            &&& b.heard == a.heard
            &&& b.now_playing == a.now_playing
            &&& b.state == a.state
        }),
{
    app::lemma_commit_frame(a, w);
}

/// What a chosen SoundFont leaves behind: it is the loaded one, the user's only
/// where it was adopted; chosen while nothing plays it goes into the history by
/// itself at once; loaded by the queue, what was waiting no longer waits.
pub proof fn lemma_loaded_font(
    a: AppView,
    loc: LocView,
    remember: bool,
    adopt: bool,
    w: WorldView,
)
    ensures
        ({
            let b = a.with_font(loc, remember, adopt, w);
            let c = a.committed(w);
            &&& b.soundfont == Some(loc)
            &&& b.user_font == if adopt {
                Some(loc)
            } else {
                a.user_font
            }
            &&& !remember ==> b.pending is None && b.history == c.history
            &&& remember && (a.state == PlayState::Stopped || a.now_playing is None)
                ==> b.history.entries == history::recorded(
                c.history.entries,
                None,
                Some(loc),
                w.unix,
                true,
            ) && b.history.dirty
            &&& remember && a.state != PlayState::Stopped && a.now_playing is Some ==> b.history
                == c.history
            &&& b.state == a.state && b.now_playing == a.now_playing && b.heard == a.heard
                && b.play_source == a.play_source
        }),
{
    app::lemma_commit_frame(a, w);
}

/// What was heard is kept in the history when it is due, and not before: the
/// pair that waited, at that moment, counted or not as it was started.
pub proof fn lemma_committed(a: AppView, w: WorldView)
    ensures
        ({
            let c = a.committed(w);
            &&& a.pending is None ==> c == a
            &&& a.pending matches Some(p) ==> if a.heard.time(w.ns) - p.at_ns < 5_000_000_000 {
                c == a && a.commit_effects(w.ns).len() == 0
            } else {
                &&& c.pending is None
                &&& a.commit_effects(w.ns) == seq![EffectView::SaveHistory]
                &&& p.midi is Some || p.soundfont is Some ==> c.history.dirty && c.history.entries
                    == history::recorded(a.history.entries, p.midi, p.soundfont, w.unix, p.count)
            }
        }),
{
    reveal(AppView::committed);
}

/// A pause is not heard: the clocks stand from when it began until it ended.
pub proof fn lemma_pause_is_not_heard(a: AppView, t: u64, u: u64, ns: u64)
    requires
        a.state == PlayState::Playing,
        t <= u <= ns,
        a.heard.time(t) <= u64::MAX,
        a.shown.time(t) <= u64::MAX,
    ensures
        ({
            let p = a.pause_toggled(t);
            let b = p.pause_toggled(u);
            &&& p.state == PlayState::Paused
            &&& b.state == PlayState::Playing
            &&& p.heard.time(ns) == a.heard.time(t)
            &&& p.counted(ns) == a.shown.time(t)
            &&& b.heard.time(ns) == a.heard.time(t) + (ns - u)
            &&& b.shown.time(ns) == a.shown.time(t) + (ns - u)
            &&& b.pending == a.pending
        }),
{
}

/// The readout moves by as many seconds as were asked for, no further back than
/// the start; what was heard does not move.
pub proof fn lemma_seek_moves_the_readout(a: AppView, secs: i32, ns: u64)
    requires
        a.state != PlayState::Stopped,
        a.shown.time(ns) + secs * 1_000_000_000 <= u64::MAX,
        a.shown.time(ns) <= u64::MAX,
    ensures
        ({
            let b = a.sought(secs, ns);
            let to = a.shown.time(ns) + secs * 1_000_000_000;
            &&& to >= 0 ==> b.counted(ns) == to
            &&& to < 0 ==> b.counted(ns) == 0
            &&& b.heard == a.heard
            &&& b.pending == a.pending
            &&& b.state == a.state
            &&& b.shown.since_ns is Some <==> a.shown.since_ns is Some
        }),
{
}


/// The directory plays on by name: at the end of a track the file below it among
/// those of its directory that play sounds, through the loaded SoundFont; after
/// the last one the first in repeat mode, and otherwise the synth stops.
pub proof fn lemma_directory_goes_on(
    a: AppView,
    cur: LocView,
    i: int,
    siblings: Seq<ChildView>,
    w: WorldView,
    was: Option<(LocView, Option<LocView>)>,
)
    requires
        moves_on(a, cur, None),
        a.play_source is Directory,
        cur.parent() is Some,
        0 <= i < a.midi.playable(siblings).len(),
        a.midi.playable(siblings)[i].loc.key() == cur.key(),
        forall|k: int|
            0 <= k < i ==> (#[trigger] a.midi.playable(siblings)[k]).loc.key() != cur.key(),
    ensures
        ({
            let files = a.midi.playable(siblings);
            let fx = a.tick_effects(true, siblings, w);
            let r = a.ticked(true, siblings, w);
            &&& i + 1 < files.len() ==> sounds_next(a, fx, files[i + 1].loc, None, was)
                && r.play_source is Directory && r.state == PlayState::Playing
            &&& i + 1 == files.len() && a.repeat ==> sounds_next(a, fx, files[0].loc, None, was)
                && r.play_source is Directory && r.state == PlayState::Playing
            &&& i + 1 == files.len() && !a.repeat ==> after(fx, synth_of(a, was)) == synth_of(
                a,
                None,
            ) && r.state == PlayState::Stopped
        }),
{
    let c = a.committed(w);
    app::lemma_commit_frame(a, w);
    let files = a.midi.playable(siblings);
    browser::lemma_find_loc(files, cur.key());
    let f = browser::find_loc(files, cur.key());
    if f < i {
        assert(files[f].loc.key() != cur.key());
    }
    if i < f {
        assert(files[i].loc.key() != cur.key());
    }
    if i + 1 < files.len() {
        let step = StepView { midi: files[i + 1].loc, soundfont: None, origin: Origin::Directory };
        assert(c.next_in_source(cur, siblings, w.disk) == Some(step));
        lemma_tick_steps(a, cur, step, siblings, w, was);
    } else if a.repeat {
        let step = StepView { midi: files[0].loc, soundfont: None, origin: Origin::Directory };
        assert(c.next_in_source(cur, siblings, w.disk) == Some(step));
        lemma_tick_steps(a, cur, step, siblings, w, was);
    } else {
        lemma_tick_stops(a, cur, siblings, w, was);
    }
}

/// What is said of a combination a side of which is gone: the SoundFont's place
/// when it is the SoundFont, else the track's.
pub proof fn lemma_gone_is_said(
    midi: Option<LocView>,
    soundfont: Option<LocView>,
    disk: Map<Seq<char>, FileKind>,
)
    ensures
        ({
            let font_gone = soundfont is Some && !(soundfont->0).is_present(disk);
            let track_gone = midi is Some && !(midi->0).is_present(disk);
            let p = overlay::combination_problem(midi, soundfont, disk);
            &&& font_gone ==> p == Some("SoundFont is gone: "@ + (soundfont->0).display())
            &&& !font_gone && track_gone ==> p == Some("File is gone: "@ + (midi->0).display())
            &&& !font_gone && !track_gone ==> p is None
        }),
{
}

/// A track that started: the readout begins anew, nothing is held back, and the
/// message goes; what it was started from stays.
pub proof fn lemma_track_started(
    a: AppView,
    loc: LocView,
    count: bool,
    info: Option<crate::midi::MidiInfo>,
    w: WorldView,
)
    ensures
        ({
            let b = a.with_track(loc, count, info, w);
            &&& b.cur_info == info && b.message is None && !b.queue_held
            &&& b.play_source == a.play_source && b.soundfont == a.soundfont && b.user_font
                == a.user_font
            &&& b.heard.time(w.ns) == 0 && b.shown.time(w.ns) == 0
            &&& b.volume == a.volume && b.repeat == a.repeat && b.next_mode == a.next_mode
            &&& b.favs == a.favs && b.playlist == a.playlist
            &&& b.history == a.committed(w).history
        }),
{
    app::lemma_commit_frame(a, w);
}

/// Stopping: nothing waits for the history any more, but what was due is kept;
/// the readout stands at zero, and the track stays the current one.
pub proof fn lemma_stopped(a: AppView, w: WorldView, ns: u64)
    requires
        a.state != PlayState::Stopped,
    ensures
        ({
            let b = a.stopped(w);
            &&& b.state == PlayState::Stopped && b.pending is None
            &&& b.history == a.committed(w).history
            &&& b.heard.time(ns) == 0 && b.shown.time(ns) == 0
            &&& b.now_playing == a.now_playing && b.soundfont == a.soundfont && b.play_source
                == a.play_source
        }),
{
    app::lemma_commit_frame(a, w);
}


// --- closing and reopening a list that plays --------------------------------

/// A list plays on only while it shows: closed, the current track is its last
/// for now. It is remembered when there was something to go on with.
pub proof fn lemma_closed_history_waits(
    a: AppView,
    cur: LocView,
    i: int,
    d: int,
    siblings: Seq<ChildView>,
    w: WorldView,
)
    requires
        a.state == PlayState::Playing,
        a.now_playing == Some(cur),
        a.next_mode,
        a.overlay is None,
        a.play_source matches SourceView::History { rows, idx, .. } && idx == i && i < rows.len()
            <= usize::MAX,
    ensures
        ({
            let rows = a.play_source->rows;
            let n = rows.len() as int;
            let ok = |k: int| row_plays(rows[k], w.disk);
            let r = a.ticked(true, siblings, w);
            &&& r.state == PlayState::Stopped && r.play_source == a.play_source
            &&& comes_to(ok, i, 1, d, n, a.repeat) ==> r.queue_held
            &&& comes_to_none(ok, i, 1, n, a.repeat) ==> !r.queue_held
        }),
{
    let c = a.committed(w);
    app::lemma_commit_frame(a, w);
    app::lemma_commit_frame(c, w);
    let rows = a.play_source->rows;
    let n = rows.len() as int;
    let ok = |k: int| AppView::row_ready(rows, k, w.disk);
    let plays = |k: int| row_plays(rows[k], w.disk);
    assert(ok =~= plays);
    if comes_to(plays, i, 1, d, n, a.repeat) {
        lemma_walk_comes_to(ok, i, 1, 1, d, n, a.repeat);
    }
    if comes_to_none(plays, i, 1, n, a.repeat) {
        lemma_walk_comes_to_none(ok, i, 1, 1, n, a.repeat);
    }
}

/// The history reopens on the rows of the queue, in their view and with their
/// filter: on the row that plays, or on the one to go on with where it was
/// waiting.
pub proof fn lemma_history_reopens(a: AppView, i: int, d: int, disk: Map<Seq<char>, FileKind>)
    requires
        a.search is None,
        a.play_source matches SourceView::History { rows, idx, .. } && idx == i && i < rows.len()
            <= usize::MAX,
    ensures
        ({
            let b = a.opened(Source::History, disk);
            let rows = a.play_source->rows;
            let n = rows.len() as int;
            let ok = |k: int| row_plays(rows[k], disk);
            &&& b.overlay matches Some(o) && o.source == Source::History && o.rows == rows && o.view
                == a.play_source->view && o.filter == a.play_source->filter && !o.filtering
            &&& !a.queue_held ==> (b.overlay->0).at == Some(i as usize)
            &&& a.queue_held && comes_to(ok, i, 1, d, n, a.repeat) ==> (b.overlay->0).at == Some(
                place(i, d, n) as usize,
            )
            &&& b.state == a.state && b.play_source == a.play_source && b.now_playing
                == a.now_playing
        }),
{
    reveal(AppView::opened);
    let rows = a.play_source->rows;
    let n = rows.len() as int;
    let ok = |k: int| AppView::row_ready(rows, k, disk);
    let plays = |k: int| row_plays(rows[k], disk);
    assert(ok =~= plays);
    if comes_to(plays, i, 1, d, n, a.repeat) {
        lemma_walk_comes_to(ok, i, 1, 1, d, n, a.repeat);
    }
}

/// A list that is not the queue opens on all of its rows, the history by
/// combination, with the cursor on the first; an empty one says so.
pub proof fn lemma_list_opens(a: AppView, source: Source, disk: Map<Seq<char>, FileKind>)
    requires
        a.search is None,
        a.play_source is Directory,
    ensures
        ({
            let b = a.opened(source, disk);
            let rows = a.rows_of(source, history::View::Pairs, seq![], disk);
            &&& b.overlay matches Some(o) && o.source == source && o.view == history::View::Pairs
                && o.filter.len() == 0 && !o.filtering && !o.confirm_clear && o.rows == rows && o.at
                == if rows.len() == 0 {
                None
            } else {
                Some(0usize)
            }
            &&& source == Source::History && a.history.entries.len() == 0 ==> b.message == Some(
                "History is empty"@,
            )
            &&& source == Source::History && a.history.entries.len() > 0 ==> b.message is None
            &&& source == Source::Favourites ==> (b.message is Some <==> a.favs.entries.len() == 0)
            &&& source == Source::Playlist ==> (b.message is Some <==> a.playlist.items.len() == 0)
            &&& b == (AppView { overlay: b.overlay, message: b.message, ..a })
        }),
{
    reveal(AppView::opened);
}

/// A SoundFont that the user picks is kept in the history; one that is loaded
/// again at launch is not. Either becomes the user's.
pub proof fn lemma_picked_and_restored(loc: LocView)
    ensures
        player::load_effect(loc, true) == seq![
            EffectView::LoadFont { loc, remember: true, adopt: true },
        ],
        player::load_effect(loc, false) == seq![
            EffectView::LoadFont { loc, remember: false, adopt: true },
        ],
{
}

/// Showing what is on points the panels at the playing track and the loaded
/// SoundFont; with neither, it is said so.
pub proof fn lemma_shows_what_is_on(a: AppView)
    ensures
        ({
            let fx = a.goto_effects();
            &&& a.now_playing is Some ==> points(fx, Panel::Midi, a.now_playing->0)
            &&& a.soundfont is Some ==> points(fx, Panel::Sf2, a.soundfont->0)
            &&& loads_none(fx) && plays_none(fx)
            &&& a.now_playing is None && a.soundfont is None ==> fx.len() == 0
                && a.gone_to_current().message == Some("Nothing playing or loaded"@)
            &&& a.now_playing is Some || a.soundfont is Some ==> a.gone_to_current().message is None
        }),
{
    let fx = a.goto_effects();
    lemma_after_reveals(a.now_playing, a.soundfont, synth_of(a, None));
    if a.now_playing is Some {
        assert(fx[0] == (EffectView::Reveal { panel: Panel::Midi, loc: a.now_playing->0 }));
    }
    if a.soundfont is Some {
        assert(fx[fx.len() - 1] == (EffectView::Reveal {
            panel: Panel::Sf2,
            loc: a.soundfont->0,
        }));
    }
}


/// Keeping a play in the history leaves the rows of the history as they are
/// shown; the favourites and the playlist show the new count, with the cursor
/// where it was.
pub proof fn lemma_kept_under_an_overlay(a: AppView, w: WorldView)
    requires
        a.due(w.ns),
        a.overlay is Some,
    ensures
        ({
            let c = a.committed(w);
            let o = a.overlay->0;
            let p = c.overlay->0;
            &&& c.overlay is Some && p.source == o.source && p.filter == o.filter && p.view == o.view
            &&& o.source == Source::History ==> p == o
            &&& o.source != Source::History ==> p.rows == c.rows_of(
                o.source,
                o.view,
                o.filter,
                w.disk,
            )
            &&& o.source != Source::History && o.at is Some && o.at->0 < p.rows.len() ==> p.at
                == o.at
            &&& c.favs == a.favs && c.playlist == a.playlist && c.play_source == a.play_source
        }),
{
    reveal(AppView::committed);
}


} // verus!
