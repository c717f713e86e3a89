//! What is decided for the synth: which audio drivers to try, and where a seek
//! leads.

use crate::app;
use crate::history;
use crate::text;
use crate::text::same_text;
use vstd::prelude::*;
use vstd::string::*;

verus! {

/// The audio drivers to try, in order. An explicit choice wins and is used
/// verbatim, with no fallback; failing that, the environment's; otherwise JACK
/// is preferred (a clean client name on PipeWire/JACK), then the usual Linux
/// drivers.
pub open spec fn drivers(choice: Option<Seq<char>>, env: Option<Seq<char>>) -> Seq<Seq<char>> {
    match (choice, env) {
        (Some(d), _) => seq![d],
        (None, Some(d)) => seq![d],
        (None, None) => seq!["jack"@, "pulseaudio"@, "alsa"@],
    }
}

pub fn driver_candidates(choice: Option<String>, env: Option<String>) -> (r: Vec<String>)
    ensures
        text::texts(r@) == drivers(history::opt_text(choice), history::opt_text(env)),
{
    let mut r: Vec<String> = Vec::new();
    match (choice, env) {
        (Some(d), _) => {
            r.push(d);
            assert(text::texts(r@) =~= seq![d@]);
        },
        (None, Some(d)) => {
            r.push(d);
            assert(text::texts(r@) =~= seq![d@]);
        },
        (None, None) => {
            r.push("jack".to_owned());
            r.push("pulseaudio".to_owned());
            r.push("alsa".to_owned());
            assert(text::texts(r@) =~= seq!["jack"@, "pulseaudio"@, "alsa"@]);
        },
    }
    r
}

/// What is said when no audio driver started.
pub fn driver_warning(started: bool) -> (r: Option<String>)
    ensures
        history::opt_text(r) == if started {
            None
        } else {
            Some(
                "audio driver failed to start — playback will be silent (try VOXFONT_AUDIO_DRIVER=alsa|pulseaudio|pipewire)"@,
            )
        },
{
    if started {
        None
    } else {
        Some(
            "audio driver failed to start — playback will be silent (try VOXFONT_AUDIO_DRIVER=alsa|pulseaudio|pipewire)".to_owned(),
        )
    }
}

/// True when the environment asks for the synth's outputs to be connected.
pub open spec fn connects(env: Option<Seq<char>>) -> bool {
    env matches Some(v) && (v == "1"@ || v == "true"@ || v == "yes"@ || v == "on"@)
}

/// Whether the synth's outputs are to be connected on startup. That is opt-in:
/// by default the user routes them in their patchbay.
pub fn autoconnects(env: &Option<String>) -> (r: bool)
    ensures
        r == connects(history::opt_text(*env)),
{
    match env {
        Some(v) => same_text(v.as_str(), "1") || same_text(v.as_str(), "true") || same_text(
            v.as_str(),
            "yes",
        ) || same_text(v.as_str(), "on"),
        None => false,
    }
}

/// The tick that a seek by `delta` ticks leads to.
pub open spec fn tick_after(cur: int, total: int, delta: int) -> int {
    app::within(
        cur + delta,
        0,
        if total > 0 {
            total
        } else {
            i32::MAX as int
        },
    )
}

/// Where a seek by `delta` ticks leads: not before the start, nor past the end
/// of a song whose length is known.
pub fn seek_target(cur: i32, total: i32, delta: i32) -> (r: i32)
    ensures
        r == tick_after(cur as int, total as int, delta as int),
{
    let t: i64 = cur as i64 + delta as i64;
    let top: i64 = if total > 0 {
        total as i64
    } else {
        i32::MAX as i64
    };
    if t < 0 {
        0
    } else if t > top {
        top as i32
    } else {
        t as i32
    }
}

} // verus!
