//! What the library is told of the process it runs in.

use crate::history;
use crate::paths;
use crate::paths::join_path;
use crate::raw;
use crate::raw::shown_text;
use crate::text;
use crate::text::{same_text, strip_prefix};
use vstd::prelude::*;
use vstd::string::*;

verus! {

/// The directories the process was started with. Bytes in them that are no text
/// are held as [`crate::raw`] says.
pub struct Host {
    /// `$HOME`, when it is set.
    pub home: Option<String>,
    /// `$XDG_CONFIG_HOME`, when it is set.
    pub xdg_config: Option<String>,
    /// The working directory, when it can be told.
    pub cwd: Option<String>,
}

/// The directories the process was started with, as texts.
#[verifier::ext_equal]
pub struct HostView {
    pub home: Option<Seq<char>>,
    pub xdg_config: Option<Seq<char>>,
    pub cwd: Option<Seq<char>>,
}

impl View for Host {
    type V = HostView;

    open spec fn view(&self) -> HostView {
        HostView {
            home: history::opt_text(self.home),
            xdg_config: history::opt_text(self.xdg_config),
            cwd: history::opt_text(self.cwd),
        }
    }
}

impl HostView {
    /// The home directory that `~` stands for, empty when it is not known or not
    /// text throughout.
    pub open spec fn home_text(self) -> Seq<char> {
        match self.home {
            Some(h) => if raw::is_text(h) {
                h
            } else {
                seq![]
            },
            None => seq![],
        }
    }

    /// The configuration directory of the program `name`.
    pub open spec fn config_dir_of(self, name: Seq<char>) -> Option<Seq<char>> {
        if self.xdg_config matches Some(x) && x.len() > 0 {
            Some(paths::join(self.xdg_config->0, name))
        } else {
            match self.home {
                Some(h) => Some(paths::join(paths::join(h, ".config"@), name)),
                None => None,
            }
        }
    }

    /// The file `file` in the configuration directory.
    pub open spec fn config_file(self, file: Seq<char>) -> Option<Seq<char>> {
        match self.config_dir_of("voxfont"@) {
            Some(d) => Some(paths::join(d, file)),
            None => None,
        }
    }

    /// The file the session is kept in.
    pub open spec fn state_file(self) -> Option<Seq<char>> {
        self.config_file("state.conf"@)
    }

    /// The file the history is kept in.
    pub open spec fn history_file(self) -> Option<Seq<char>> {
        self.config_file("history.conf"@)
    }

    /// The file the favourites are kept in.
    pub open spec fn favourites_file(self) -> Option<Seq<char>> {
        self.config_file("favourites.conf"@)
    }

    /// The file the session was kept in under the program's earlier name.
    pub open spec fn legacy_state_file(self) -> Option<Seq<char>> {
        match self.config_dir_of("sfplay"@) {
            Some(d) => Some(paths::join(d, "state.conf"@)),
            None => None,
        }
    }
}

/// `s` with the home directory in place of a leading `~`.
pub open spec fn tilde(s: Seq<char>, home: Seq<char>) -> Seq<char> {
    if s == seq!['~'] {
        home
    } else {
        match text::without_prefix(s, seq!['~', '/']) {
            Some(rest) => home + seq!['/'] + rest,
            None => s,
        }
    }
}

/// `s` made absolute against the working directory and lexically normalised.
/// Without a working directory, and for an empty path, `s` normalised.
pub open spec fn absolute_text(s: Seq<char>, cwd: Option<Seq<char>>) -> Seq<char> {
    match cwd {
        Some(d) => if s.len() == 0 {
            paths::normalize(s)
        } else {
            paths::normalize(paths::join(d, s))
        },
        None => paths::normalize(s),
    }
}

impl Host {
    pub fn home_string(&self) -> (r: String)
        ensures
            r@ == self@.home_text(),
    {
        match &self.home {
            Some(h) => {
                let shown = shown_text(h.as_str());
                if same_text(shown.as_str(), h.as_str()) {
                    return shown;
                }
            },
            None => {},
        }
        let r = String::new();
        assert(r@ =~= seq![]);
        r
    }

    /// Put the home directory in place of a leading `~`.
    pub fn expand_tilde(&self, s: &str) -> (r: String)
        ensures
            r@ == tilde(s@, self@.home_text()),
    {
        proof {
            reveal_strlit("~");
            reveal_strlit("~/");
            assert("~"@ =~= seq!['~']);
            assert("~/"@ =~= seq!['~', '/']);
        }
        if same_text(s, "~") {
            return self.home_string();
        }
        match strip_prefix(s, "~/") {
            Some(rest) => {
                let mut r = self.home_string();
                r.push('/');
                r.append(rest.as_str());
                assert(r@ =~= tilde(s@, self@.home_text()));
                r
            },
            None => s.to_owned(),
        }
    }

    fn config_dir_text(&self, name: &str) -> (r: Option<String>)
        ensures
            history::opt_text(r) == self@.config_dir_of(name@),
    {
        match &self.xdg_config {
            Some(x) => {
                if x.as_str().unicode_len() > 0 {
                    return Some(join_path(x.as_str(), name));
                }
            },
            None => {},
        }
        match &self.home {
            Some(h) => {
                let c = join_path(h.as_str(), ".config");
                Some(join_path(c.as_str(), name))
            },
            None => None,
        }
    }

    /// The configuration directory.
    pub fn config_dir(&self) -> (r: Option<String>)
        ensures
            history::opt_text(r) == self@.config_dir_of("voxfont"@),
    {
        self.config_dir_text("voxfont")
    }

    fn config_file_text(&self, file: &str) -> (r: Option<String>)
        ensures
            history::opt_text(r) == self@.config_file(file@),
    {
        match self.config_dir() {
            Some(d) => Some(join_path(d.as_str(), file)),
            None => None,
        }
    }

    /// Where the session is kept.
    pub fn config_path(&self) -> (r: Option<String>)
        ensures
            history::opt_text(r) == self@.state_file(),
    {
        self.config_file_text("state.conf")
    }

    /// Where the program's earlier name, "sfplay", kept the session: read as a
    /// fallback so existing users keep their saved session.
    pub fn legacy_config_path(&self) -> (r: Option<String>)
        ensures
            history::opt_text(r) == self@.legacy_state_file(),
    {
        match self.config_dir_text("sfplay") {
            Some(d) => Some(join_path(d.as_str(), "state.conf")),
            None => None,
        }
    }

    /// Where the playing history is kept.
    pub fn history_path(&self) -> (r: Option<String>)
        ensures
            history::opt_text(r) == self@.history_file(),
    {
        self.config_file_text("history.conf")
    }

    /// Where the favourites are kept.
    pub fn favourites_path(&self) -> (r: Option<String>)
        ensures
            history::opt_text(r) == self@.favourites_file(),
    {
        self.config_file_text("favourites.conf")
    }
}

/// An absolute path with no `~` in front is its own expansion.
pub proof fn lemma_tilde_absolute(s: Seq<char>, home: Seq<char>)
    requires
        s.len() == 0 || s[0] != '~',
    ensures
        tilde(s, home) == s,
{
    if text::starts_with(s, seq!['~', '/']) {
        assert(s.take(2)[0] == '~');
    }
}

/// A path made absolute starts at the root, in its plainest spelling, with no
/// `.` or `..` left in it, and making it absolute again changes nothing.
pub proof fn lemma_absolute(s: Seq<char>, cwd: Seq<char>)
    requires
        s.len() > 0,
        paths::is_absolute(cwd),
    ensures
        ({
            let r = absolute_text(s, Some(cwd));
            &&& paths::is_absolute(r)
            &&& paths::is_plain(r)
            &&& forall|i: int|
                0 <= i < paths::key(r).segs.len() ==> #[trigger] paths::key(r).segs[i]
                    != paths::dot() && paths::key(r).segs[i] != paths::dot_dot()
            &&& absolute_text(r, Some(cwd)) == r
        }),
{
    let j = paths::join(cwd, s);
    assert(paths::is_absolute(j)) by {
        if !paths::is_absolute(s) {
            assert(j[0] == cwd[0]);
        }
    }
    paths::lemma_normalize_plain(j);
    paths::lemma_normalize_idempotent(j);
}

} // verus!
