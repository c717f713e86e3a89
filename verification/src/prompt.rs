//! The path prompt (`i`, and saving a playlist).

use crate::app;
use crate::app::{
    ask, shorten, App, AppView, Effect, EffectView, Prompt, PromptKind, PromptView, World,
    WorldView,
};
use crate::ascii;
use crate::ascii::dec_text;
use crate::history;
use crate::host;
use crate::host::{Host, HostView};
use crate::lists;
use crate::paths;
use crate::paths::same_path;
use crate::playlist;
use crate::playlist::{absolute, is_playlist_name};
use crate::raw;
use crate::raw::shown_text;
use crate::text;
use crate::text::{chars_of, past_last_in, string_of, trimmed};
use crate::vfs;
use vstd::prelude::*;
use vstd::string::*;

verus! {

// --- editing the line -------------------------------------------------------

/// `s` with a slash at its end.
pub open spec fn slashed(s: Seq<char>) -> Seq<char> {
    if s.len() > 0 && s.last() == '/' {
        s
    } else {
        s.push('/')
    }
}

/// `s` up to the slash before its last component.
pub open spec fn without_component(s: Seq<char>) -> Seq<char> {
    let t = if s.len() > 0 && s.last() == '/' {
        s.drop_last()
    } else {
        s
    };
    t.take(text::past_last(t, '/'))
}

/// Drop the last path component of `s`, keeping the trailing slash (for the GO
/// prompt's Alt+Backspace). "/a/b/c" -> "/a/b/", "/a/b/" -> "/a/".
pub fn delete_path_component(s: &str) -> (r: String)
    ensures
        r@ == without_component(s@),
{
    let cs = chars_of(s);
    let n: usize = cs.len();
    let t = if n > 0 && cs[n - 1] == '/' {
        shorten(s)
    } else {
        string_of(&cs, 0, n)
    };
    assert(t@ =~= if s@.len() > 0 && s@.last() == '/' {
        s@.drop_last()
    } else {
        s@
    });
    let ts = chars_of(t.as_str());
    let k: usize = past_last_in(&ts, '/');
    let r = string_of(&ts, 0, k);
    assert(r@ =~= t@.take(k as int));
    r
}

impl AppView {
    /// With the prompt's text changed. Any edit takes back an overwrite
    /// question.
    pub open spec fn prompt_edited(self, buf: Seq<char>) -> AppView {
        match self.prompt {
            Some(p) => AppView {
                prompt: Some(PromptView { buf, confirm: None, ..p }),
                ..self
            },
            None => self,
        }
    }
}

impl App {
    /// Open the GO prompt, pre-filled with the active panel's directory. The
    /// prompt navigates the filesystem only, so an archive resolves to the
    /// directory that holds it.
    pub fn start_goto(&mut self)
        ensures
            old(self)@.wf() ==> final(self)@.wf(),
            final(self)@ == (AppView {
                prompt: Some(
                    PromptView {
                        kind: PromptKind::Goto,
                        buf: slashed(raw::shown(old(self)@.active_panel().dir.fs_dir())),
                        confirm: None,
                    },
                ),
                ..old(self)@
            }),
    {
        let at = self.focused().fs_dir();
        let mut d = shown_text(at.as_str());
        let cs = chars_of(d.as_str());
        let n: usize = cs.len();
        if !(n > 0 && cs[n - 1] == '/') {
            d.push('/');
        }
        self.prompt = Some(Prompt { kind: PromptKind::Goto, buf: d, confirm: None });
    }

    /// Change the prompt's text. Any edit takes back an overwrite question.
    fn prompt_edit(&mut self, buf: String)
        ensures
            final(self)@ == old(self)@.prompt_edited(buf@),
    {
        match &mut self.prompt {
            Some(p) => {
                p.buf = buf;
                p.confirm = None;
            },
            None => {},
        }
    }

    pub fn prompt_push(&mut self, c: char)
        ensures
            final(self)@ == (match old(self)@.prompt {
                Some(p) => old(self)@.prompt_edited(p.buf.push(c)),
                None => old(self)@,
            }),
    {
        let buf = match &self.prompt {
            Some(p) => {
                let mut b = p.buf.clone();
                b.push(c);
                b
            },
            None => {
                return;
            },
        };
        self.prompt_edit(buf);
    }

    pub fn prompt_backspace(&mut self)
        ensures
            final(self)@ == (match old(self)@.prompt {
                Some(p) => old(self)@.prompt_edited(app::shortened(p.buf)),
                None => old(self)@,
            }),
    {
        let buf = match &self.prompt {
            Some(p) => shorten(p.buf.as_str()),
            None => {
                return;
            },
        };
        self.prompt_edit(buf);
    }

    /// Delete the last path component (back to the previous slash).
    pub fn prompt_delete_component(&mut self)
        ensures
            final(self)@ == (match old(self)@.prompt {
                Some(p) => old(self)@.prompt_edited(without_component(p.buf)),
                None => old(self)@,
            }),
    {
        let buf = match &self.prompt {
            Some(p) => delete_path_component(p.buf.as_str()),
            None => {
                return;
            },
        };
        self.prompt_edit(buf);
    }

    pub fn prompt_cancel(&mut self)
        ensures
            final(self)@ == (AppView { prompt: None, ..old(self)@ }),
    {
        self.prompt = None;
    }
}

// --- completion -------------------------------------------------------------

/// What `a` and `b` both start with.
pub open spec fn shared(a: Seq<char>, b: Seq<char>) -> Seq<char>
    decreases a.len(),
{
    if a.len() > 0 && b.len() > 0 && a[0] == b[0] {
        seq![a[0]] + shared(a.drop_first(), b.drop_first())
    } else {
        seq![]
    }
}

/// The longest text that all of `v` start with.
pub open spec fn shared_by_all(v: Seq<Seq<char>>) -> Seq<char>
    decreases v.len(),
{
    if v.len() == 0 {
        seq![]
    } else if v.len() == 1 {
        v[0]
    } else {
        shared(shared_by_all(v.drop_last()), v.last())
    }
}

/// `rustyline::completion::longest_common_prefix` on texts that stand for
/// themselves: nothing for no text, the text itself for a single one, and for
/// more what they all start with, unless that is empty.
#[verifier::external_body]
fn longest_common_prefix(candidates: &Vec<String>) -> (r: Option<String>)
    ensures
        history::opt_text(r) == if candidates@.len() == 0 || (candidates@.len() > 1
            && shared_by_all(text::texts(candidates@)).len() == 0) {
            None
        } else {
            Some(shared_by_all(text::texts(candidates@)))
        },
{
    match rustyline::completion::longest_common_prefix(candidates) {
        Some(p) => Some(p.to_owned()),
        None => None,
    }
}

proof fn lemma_shared(a: Seq<char>, b: Seq<char>, p: Seq<char>)
    ensures
        text::starts_with(a, p) && text::starts_with(b, p) <==> text::starts_with(shared(a, b), p),
    decreases a.len(),
{
    let s = shared(a, b);
    if a.len() > 0 && b.len() > 0 && a[0] == b[0] {
        let (ta, tb) = (a.drop_first(), b.drop_first());
        assert(s.drop_first() =~= shared(ta, tb));
        if p.len() > 0 {
            let tp = p.drop_first();
            lemma_shared(ta, tb, tp);
            lemma_starts_first(a, p);
            lemma_starts_first(b, p);
            lemma_starts_first(s, p);
        } else {
            lemma_starts_none(a, p);
            lemma_starts_none(b, p);
            lemma_starts_none(s, p);
        }
    } else {
        if p.len() == 0 {
            lemma_starts_none(a, p);
            lemma_starts_none(b, p);
            lemma_starts_none(s, p);
        } else {
            if text::starts_with(a, p) && text::starts_with(b, p) {
                lemma_starts_first(a, p);
                lemma_starts_first(b, p);
            }
        }
    }
}

proof fn lemma_starts_none(s: Seq<char>, p: Seq<char>)
    requires
        p.len() == 0,
    ensures
        text::starts_with(s, p),
{
    assert(s.take(0) =~= p);
}

proof fn lemma_starts_first(s: Seq<char>, p: Seq<char>)
    requires
        p.len() > 0,
    ensures
        text::starts_with(s, p) <==> s.len() > 0 && s[0] == p[0] && text::starts_with(
            s.drop_first(),
            p.drop_first(),
        ),
{
    if text::starts_with(s, p) {
        assert(s.take(p.len() as int) =~= p);
        assert(s[0] == p[0]) by {
            assert(s.take(p.len() as int)[0] == p[0]);
        }
        assert forall|i: int| 0 <= i < p.len() implies s[i] == p[i] by {
            assert(s.take(p.len() as int)[i] == p[i]);
        }
        assert(s.drop_first().take(p.len() - 1) =~= p.drop_first());
    }
    if s.len() > 0 && s[0] == p[0] && text::starts_with(s.drop_first(), p.drop_first()) {
        let t = s.drop_first().take(p.len() - 1);
        assert(t =~= p.drop_first());
        assert forall|i: int| 0 <= i < p.len() implies s.take(p.len() as int)[i] == p[i] by {
            if i > 0 {
                assert(t[i - 1] == p.drop_first()[i - 1]);
            }
        }
        assert(s.take(p.len() as int) =~= p);
    }
}

/// What all of the texts start with is a start of each, and every other such
/// start is a start of it.
pub proof fn lemma_shared_by_all(v: Seq<Seq<char>>, p: Seq<char>)
    requires
        v.len() > 0,
    ensures
        (forall|i: int| 0 <= i < v.len() ==> text::starts_with(#[trigger] v[i], p))
            <==> text::starts_with(shared_by_all(v), p),
    decreases v.len(),
{
    if v.len() > 1 {
        let t = v.drop_last();
        lemma_shared_by_all(t, p);
        lemma_shared(shared_by_all(t), v.last(), p);
        if text::starts_with(shared_by_all(v), p) {
            assert forall|i: int| 0 <= i < v.len() implies text::starts_with(
                #[trigger] v[i],
                p,
            ) by {
                if i < t.len() {
                    assert(text::starts_with(t[i], p));
                }
            }
        }
        if forall|i: int| 0 <= i < v.len() ==> text::starts_with(#[trigger] v[i], p) {
            assert forall|i: int| 0 <= i < t.len() implies text::starts_with(
                #[trigger] t[i],
                p,
            ) by {
                assert(text::starts_with(v[i], p));
            }
        }
    }
}

impl AppView {
    /// With the prompt's text completed: `head` is what stands before the part
    /// that is completed, `candidates` what it may become.
    pub open spec fn prompt_completed(
        self,
        head: Seq<char>,
        candidates: Seq<Seq<char>>,
    ) -> AppView {
        if self.prompt is None || candidates.len() == 0 {
            self
        } else if candidates.len() == 1 {
            self.prompt_edited(head + candidates[0])
        } else {
            let p = shared_by_all(candidates);
            (if p.len() > 0 {
                self.prompt_edited(head + p)
            } else {
                self
            }).saying(ascii::dec(candidates.len()) + " matches"@)
        }
    }
}

impl App {
    /// Tab-complete the path in the prompt, of which `head` stays and the rest
    /// becomes the candidate, or what all of the candidates start with.
    pub fn prompt_complete(&mut self, head: &str, candidates: &Vec<String>)
        ensures
            final(self)@ == old(self)@.prompt_completed(head@, text::texts(candidates@)),
    {
        let n: usize = candidates.len();
        if self.prompt.is_none() || n == 0 {
            return;
        }
        let common = longest_common_prefix(candidates);
        match common {
            Some(p) => {
                let mut done = head.to_owned();
                done.append(p.as_str());
                self.prompt_edit(done);
            },
            None => {},
        }
        if n > 1 {
            let mut m = dec_text(n as u64);
            m.append(" matches");
            self.message = Some(m);
        }
    }
}

// --- acting on it -----------------------------------------------------------

/// The file a playlist is saved to for a name typed in the prompt: without the
/// extension of a playlist it is given one.
pub open spec fn save_target(input: Seq<char>, host: HostView) -> Seq<char> {
    let p = host::tilde(input, host.home_text());
    host::absolute_text(
        if playlist::has_ext(input, playlist::playlist_exts()) {
            p
        } else {
            p + ".m3u"@
        },
        host.cwd,
    )
}

impl AppView {
    /// The path that submitting the prompt looks for on disk.
    pub open spec fn prompt_target(self, host: HostView) -> Option<Seq<char>> {
        match self.prompt {
            Some(p) => {
                let input = text::trim(p.buf);
                Some(
                    match p.kind {
                        PromptKind::Goto => host::tilde(input, host.home_text()),
                        PromptKind::SavePlaylist => save_target(input, host),
                    },
                )
            },
            None => None,
        }
    }

    /// True when saving to `p` would overwrite some other file, and this was
    /// not confirmed. Re-saving the playlist's own file does not ask.
    pub open spec fn asks_overwrite(self, p: Seq<char>, w: WorldView) -> bool {
        vfs::on_disk(w.disk, p) && !(self.playlist.path matches Some(q) && paths::key(q)
            == paths::key(p)) && !((self.prompt->0).confirm matches Some(c) && paths::key(c)
            == paths::key(p))
    }

    /// With the prompt acted on.
    pub open spec fn submitted(self, w: WorldView) -> AppView {
        match self.prompt {
            Some(p) => {
                let input = text::trim(p.buf);
                let target = self.prompt_target(w.host)->0;
                match p.kind {
                    PromptKind::Goto => AppView {
                        prompt: None,
                        message: if vfs::dir_on_disk(w.disk, target) {
                            None
                        } else {
                            Some("Not a directory: "@ + input)
                        },
                        ..self
                    },
                    PromptKind::SavePlaylist => if input.len() == 0 {
                        self.saying("Type a file name to save the playlist to"@)
                    } else if vfs::dir_on_disk(w.disk, target) {
                        self.saying("That is a directory: "@ + raw::shown(target))
                    } else if self.asks_overwrite(target, w) {
                        AppView {
                            prompt: Some(PromptView { confirm: Some(target), ..p }),
                            message: Some(
                                raw::shown(target) + " exists — Enter again to overwrite it"@,
                            ),
                            ..self
                        }
                    } else {
                        self
                    },
                }
            },
            None => self,
        }
    }

    pub open spec fn submit_effects(self, w: WorldView) -> Seq<EffectView> {
        match self.prompt {
            Some(p) => {
                let target = self.prompt_target(w.host)->0;
                match p.kind {
                    PromptKind::Goto => if vfs::dir_on_disk(w.disk, target) {
                        seq![EffectView::SetDir { panel: self.active, dir: target }]
                    } else {
                        seq![]
                    },
                    PromptKind::SavePlaylist => if text::trim(p.buf).len() == 0
                        || vfs::dir_on_disk(w.disk, target) || self.asks_overwrite(target, w) {
                        seq![]
                    } else {
                        seq![lists::write_effect(self.playlist, target, w.host.cwd, true)]
                    },
                }
            },
            None => seq![],
        }
    }
}

fn save_path(input: &str, host: &Host) -> (r: String)
    ensures
        r@ == save_target(input@, host@),
{
    let mut p = host.expand_tilde(input);
    if !is_playlist_name(input) {
        p.append(".m3u");
    }
    absolute(p.as_str(), host)
}

impl App {
    /// The path that [`App::prompt_submit`] looks for on disk.
    pub fn prompt_target(&self, host: &Host) -> (r: Option<String>)
        ensures
            history::opt_text(r) == self@.prompt_target(host@),
    {
        match &self.prompt {
            Some(p) => {
                let input = trimmed(p.buf.as_str());
                Some(
                    match p.kind {
                        PromptKind::Goto => host.expand_tilde(input.as_str()),
                        PromptKind::SavePlaylist => save_path(input.as_str(), host),
                    },
                )
            },
            None => None,
        }
    }

    fn submit_goto(&mut self, input: String, world: &World) -> (r: Vec<Effect>)
        requires
            old(self)@.prompt matches Some(p) && p.kind == PromptKind::Goto && input@ == text::trim(
                p.buf,
            ),
        ensures
            final(self)@ == old(self)@.submitted(world@),
            app::effects(r@) == old(self)@.submit_effects(world@),
    {
        let mut out: Vec<Effect> = Vec::new();
        let panel = self.active;
        self.prompt = None;
        let dir = world.host.expand_tilde(input.as_str());
        if world.disk.is_dir(dir.as_str()) {
            self.message = None;
            ask(&mut out, Effect::SetDir { panel, dir });
        } else {
            let mut m = "Not a directory: ".to_owned();
            m.append(input.as_str());
            self.message = Some(m);
        }
        out
    }

    fn needs_confirming(&self, path: &str, world: &World) -> (r: bool)
        requires
            self@.prompt is Some,
        ensures
            r == self@.asks_overwrite(path@, world@),
    {
        if !world.disk.is_present(path) {
            return false;
        }
        let own = match self.playlist.path() {
            Some(q) => same_path(q.as_str(), path),
            None => false,
        };
        let confirmed = match &self.prompt {
            Some(p) => match &p.confirm {
                Some(c) => same_path(c.as_str(), path),
                None => false,
            },
            None => false,
        };
        !own && !confirmed
    }

    fn set_confirm(&mut self, path: String)
        requires
            old(self)@.prompt is Some,
        ensures
            final(self)@ == (AppView {
                prompt: Some(PromptView { confirm: Some(path@), ..old(self)@.prompt->0 }),
                ..old(self)@
            }),
    {
        match &mut self.prompt {
            Some(p) => {
                p.confirm = Some(path);
            },
            None => {},
        }
    }

    fn submit_save(&mut self, input: String, world: &World) -> (r: Vec<Effect>)
        requires
            old(self)@.prompt matches Some(p) && p.kind == PromptKind::SavePlaylist && input@
                == text::trim(p.buf),
        ensures
            final(self)@ == old(self)@.submitted(world@),
            app::effects(r@) == old(self)@.submit_effects(world@),
    {
        let mut out: Vec<Effect> = Vec::new();
        let cs = chars_of(input.as_str());
        if cs.len() == 0 {
            self.say("Type a file name to save the playlist to");
            return out;
        }
        let path = save_path(input.as_str(), &world.host);
        if world.disk.is_dir(path.as_str()) {
            let mut m = "That is a directory: ".to_owned();
            let shown = shown_text(path.as_str());
            m.append(shown.as_str());
            self.message = Some(m);
            return out;
        }
        // Overwriting some other file asks first; re-saving the playlist's own
        // file does not.
        if self.needs_confirming(path.as_str(), world) {
            let mut m = shown_text(path.as_str());
            m.append(" exists — Enter again to overwrite it");
            self.message = Some(m);
            self.set_confirm(path);
            return out;
        }
        self.ask_to_write(path.as_str(), &world.host, true, &mut out);
        out
    }

    /// Act on the prompt: navigate the active panel, or save the playlist.
    pub fn prompt_submit(&mut self, world: &World) -> (r: Vec<Effect>)
        requires
            old(self)@.wf(),
        ensures
            final(self)@.wf(),
            final(self)@ == old(self)@.submitted(world@),
            app::effects(r@) == old(self)@.submit_effects(world@),
    {
        let (kind, input) = match &self.prompt {
            Some(p) => (p.kind, trimmed(p.buf.as_str())),
            None => {
                return Vec::new();
            },
        };
        match kind {
            PromptKind::Goto => self.submit_goto(input, world),
            PromptKind::SavePlaylist => self.submit_save(input, world),
        }
    }
}

} // verus!
