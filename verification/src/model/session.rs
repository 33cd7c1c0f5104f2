//! The saved session: which directories were open, and how it is checked when it is read.

use vstd::prelude::*;

use crate::model::config;
use crate::model::config::config_path;
use crate::path;
use crate::path::FsPath;
use crate::text;
use crate::text::push_decimal;

verus! {

/// The version of the format.
pub const SESSION_VERSION: u32 = 1;

/// The largest session file that is read or written, in bytes.
pub const MAX_SESSION_BYTES: u64 = 0x10_0000;

/// The side of the window that has the focus.
#[derive(Clone, Copy, Debug, PartialEq, Eq, Structural)]
pub enum SavedPaneSide {
    Left,
    Right,
}

impl Default for SavedPaneSide {
    fn default() -> (r: SavedPaneSide)
        ensures
            r == SavedPaneSide::Left,
    {
        SavedPaneSide::Left
    }
}

/// A saved tab.
#[derive(Debug)]
pub struct TabSession {
    pub path: FsPath,
}

/// A saved pane.
#[derive(Debug)]
pub struct PaneSession {
    pub tabs: Vec<TabSession>,
    pub active_tab: usize,
}

/// A saved session. The split ratio is a single-precision number, kept as its bits.
#[derive(Debug)]
pub struct SessionState {
    pub version: u32,
    pub left: PaneSession,
    pub right: Option<PaneSession>,
    pub focus: SavedPaneSide,
    pub split_ratio: u32,
}

/// A saved pane by its parts.
#[verifier::ext_equal]
pub struct PaneView {
    pub tabs: Seq<Seq<u8>>,
    pub active_tab: int,
}

/// A saved session by its parts.
#[verifier::ext_equal]
pub struct SessionView {
    pub version: u32,
    pub left: PaneView,
    pub right: Option<PaneView>,
    pub focus: SavedPaneSide,
    pub split_ratio: u32,
}

/// The paths of saved tabs.
pub open spec fn tab_paths(tabs: Seq<TabSession>) -> Seq<Seq<u8>> {
    tabs.map_values(|t: TabSession| t.path@)
}

impl View for PaneSession {
    type V = PaneView;

    open spec fn view(&self) -> PaneView {
        PaneView { tabs: tab_paths(self.tabs@), active_tab: self.active_tab as int }
    }
}

impl View for SessionState {
    type V = SessionView;

    open spec fn view(&self) -> SessionView {
        SessionView {
            version: self.version,
            left: self.left@,
            right: match self.right {
                Some(p) => Some(p@),
                None => None,
            },
            focus: self.focus,
            split_ratio: self.split_ratio,
        }
    }
}

/// Whether two saved panes are the same, in whatever spelling of the paths.
pub open spec fn same_pane(a: PaneView, b: PaneView) -> bool {
    &&& a.tabs.len() == b.tabs.len()
    &&& forall|i: int| 0 <= i < a.tabs.len() ==> path::same_path(#[trigger] a.tabs[i], b.tabs[i])
    &&& a.active_tab == b.active_tab
}

/// Whether bits in single precision stand for no number at all.
pub open spec fn is_nan(bits: u32) -> bool {
    bits % 0x8000_0000 > 0x7F80_0000
}

/// Whether two ratios are the same, given by their bits in single precision: what is no number
/// is not even the same as itself, and the two zeros are.
pub open spec fn same_ratio(a: u32, b: u32) -> bool {
    (a == b && !is_nan(a)) || (a % 0x8000_0000 == 0 && b % 0x8000_0000 == 0)
}

/// Whether two ratios are the same, given by their bits.
pub fn ratios_match(a: u32, b: u32) -> (r: bool)
    ensures
        r == same_ratio(a, b),
{
    (a == b && a % 0x8000_0000 <= 0x7F80_0000) || (a % 0x8000_0000 == 0 && b % 0x8000_0000 == 0)
}

/// Whether two saved sessions are the same, in whatever spelling of the paths.
pub open spec fn same_session(a: SessionView, b: SessionView) -> bool {
    &&& a.version == b.version
    &&& same_pane(a.left, b.left)
    &&& match (a.right, b.right) {
        (Some(x), Some(y)) => same_pane(x, y),
        (None, None) => true,
        _ => false,
    }
    &&& a.focus == b.focus
    &&& same_ratio(a.split_ratio, b.split_ratio)
}

impl PaneSession {
    /// Whether two saved panes are the same.
    pub fn same(&self, other: &PaneSession) -> (r: bool)
        ensures
            r == same_pane(self@, other@),
    {
        if self.tabs.len() != other.tabs.len() {
            assert(self@.tabs.len() != other@.tabs.len());
            return false;
        }
        let mut i: usize = 0;
        while i < self.tabs.len()
            invariant
                i <= self.tabs@.len() == other.tabs@.len(),
                forall|k: int|
                    0 <= k < i ==> path::same_path(#[trigger] self@.tabs[k], other@.tabs[k]),
            decreases self.tabs@.len() - i,
        {
            assert(self@.tabs[i as int] == self.tabs@[i as int].path@);
            assert(other@.tabs[i as int] == other.tabs@[i as int].path@);
            if !self.tabs[i].path.same(&other.tabs[i].path) {
                return false;
            }
            i += 1;
        }
        self.active_tab == other.active_tab
    }

    /// A copy of the pane.
    pub fn copy(&self) -> (r: PaneSession)
        ensures
            r@ == self@,
    {
        let mut tabs: Vec<TabSession> = Vec::new();
        let mut i: usize = 0;
        assert(tab_paths(tabs@) =~= self@.tabs.take(0));
        while i < self.tabs.len()
            invariant
                i <= self.tabs@.len(),
                tab_paths(tabs@) == self@.tabs.take(i as int),
            decreases self.tabs@.len() - i,
        {
            let ghost before = tab_paths(tabs@);
            let p = self.tabs[i].path.clone();
            let ghost v = p@;
            tabs.push(TabSession { path: p });
            i += 1;
            assert(tab_paths(tabs@) =~= before.push(v));
            assert(tab_paths(tabs@) =~= self@.tabs.take(i as int));
        }
        assert(tab_paths(tabs@) =~= self@.tabs);
        PaneSession { tabs, active_tab: self.active_tab }
    }
}

impl SessionState {
    /// Whether two saved sessions are the same.
    pub fn same(&self, other: &SessionState) -> (r: bool)
        ensures
            r == same_session(self@, other@),
    {
        let right = match (&self.right, &other.right) {
            (Some(a), Some(b)) => a.same(b),
            (None, None) => true,
            _ => false,
        };
        self.version == other.version && self.left.same(&other.left) && right && self.focus
            == other.focus && ratios_match(self.split_ratio, other.split_ratio)
    }

    /// A copy of the session.
    pub fn copy(&self) -> (r: SessionState)
        ensures
            r@ == self@,
    {
        let right = match &self.right {
            Some(p) => Some(p.copy()),
            None => None,
        };
        SessionState {
            version: self.version,
            left: self.left.copy(),
            right,
            focus: self.focus,
            split_ratio: self.split_ratio,
        }
    }
}

/// Why a session was not read or written.
#[derive(Debug)]
pub enum SessionError {
    Io(String),
    Json(String),
    TooLarge(u64),
    UnsupportedVersion(u32),
}

impl SessionError {
    /// What is reported of the error.
    pub open spec fn text(self) -> Seq<char> {
        match self {
            SessionError::Io(e) => e@,
            SessionError::Json(e) => e@,
            SessionError::TooLarge(bytes) => "session file is too large ("@ + text::decimal(
                bytes as nat,
            ) + " bytes)"@,
            SessionError::UnsupportedVersion(v) => "unsupported session version "@ + text::decimal(
                v as nat,
            ),
        }
    }

    /// What is reported of the error.
    pub fn message(&self) -> (r: String)
        ensures
            r@ == self.text(),
    {
        match self {
            SessionError::Io(e) => e.clone(),
            SessionError::Json(e) => e.clone(),
            SessionError::TooLarge(bytes) => {
                let mut out = "session file is too large (".to_owned();
                push_decimal(&mut out, *bytes);
                out.push_str(" bytes)");
                out
            },
            SessionError::UnsupportedVersion(v) => {
                let mut out = "unsupported session version ".to_owned();
                push_decimal(&mut out, *v as u64);
                out
            },
        }
    }
}

/// What was found where the session is kept.
#[derive(Debug)]
pub enum SessionFile {
    Missing,
    Failed(String),
    Size(u64),
}

/// What to do about the session file.
#[derive(Debug)]
pub enum LoadStep {
    /// There is no session.
    NoSession,
    /// Read the file.
    Read,
    /// Report the error.
    Fail(SessionError),
}

/// Decides what to do about the session file: a missing one is no error, and one that is too
/// large is not read.
pub fn plan_load(found: SessionFile) -> (r: LoadStep)
    ensures
        match found {
            SessionFile::Missing => r is NoSession,
            SessionFile::Failed(e) => r matches LoadStep::Fail(SessionError::Io(m)) && m == e,
            SessionFile::Size(n) => if n > MAX_SESSION_BYTES {
                r matches LoadStep::Fail(SessionError::TooLarge(k)) && k == n
            } else {
                r is Read
            },
        },
{
    match found {
        SessionFile::Missing => LoadStep::NoSession,
        SessionFile::Failed(e) => LoadStep::Fail(SessionError::Io(e)),
        SessionFile::Size(n) => if n > MAX_SESSION_BYTES {
            LoadStep::Fail(SessionError::TooLarge(n))
        } else {
            LoadStep::Read
        },
    }
}

/// Accepts a session of the version that is understood.
pub fn accept_version(session: SessionState) -> (r: Result<SessionState, SessionError>)
    ensures
        match r {
            Ok(s) => s == session && session.version == SESSION_VERSION,
            Err(SessionError::UnsupportedVersion(v)) => v == session.version && v
                != SESSION_VERSION,
            Err(_) => false,
        },
{
    if session.version != SESSION_VERSION {
        return Err(SessionError::UnsupportedVersion(session.version));
    }
    Ok(session)
}

/// Accepts the bytes of a session that are not too many to be read back.
pub fn accept_data(bytes: usize) -> (r: Result<(), SessionError>)
    ensures
        match r {
            Ok(()) => bytes <= MAX_SESSION_BYTES,
            Err(SessionError::TooLarge(n)) => n == bytes && n > MAX_SESSION_BYTES,
            Err(_) => false,
        },
{
    if bytes as u64 > MAX_SESSION_BYTES {
        return Err(SessionError::TooLarge(bytes as u64));
    }
    Ok(())
}

/// Where the session is kept.
pub fn session_path(home: &Option<String>) -> (r: FsPath)
    ensures
        r@ == config::config_file(
            text::optional_text(*home),
            "."@,
            "session-terminal.json"@,
        ),
{
    config_path(home, ".", "session-terminal.json")
}

/// The name of the file that a session is written to before it replaces the old one.
pub open spec fn temporary_name(p: Seq<u8>, process: u32) -> Seq<u8> {
    let name = match path::file_name_of(p) {
        Some(n) => n,
        None => vstd::utf8::encode_utf8("session"@),
    };
    name + vstd::utf8::encode_utf8(".tmp-"@ + text::decimal(process as nat))
}

/// Where a session is written before it replaces the old one: beside it, under a name of its own.
pub open spec fn temporary_place(p: Seq<u8>, process: u32) -> Seq<u8> {
    let base = if path::file_name_of(p) is Some {
        match path::parent_of(p) {
            Some(q) => q,
            None => p,
        }
    } else {
        p
    };
    path::joined(base, temporary_name(p, process))
}

/// Where a session is written before it replaces the old one.
pub fn temporary_path(path: &FsPath, process: u32) -> (r: FsPath)
    ensures
        r@ == temporary_place(path@, process),
{
    let mut suffix = ".tmp-".to_owned();
    push_decimal(&mut suffix, process as u64);
    let tail = FsPath::new(suffix.as_str());
    let named = path.file_name();
    let has_name = named.is_some();
    let mut name = match named {
        Some(n) => n,
        None => FsPath::new("session").bytes,
    };
    let mut rest = tail.bytes;
    name.append(&mut rest);
    let base = if has_name {
        match path.parent() {
            Some(q) => q,
            None => path.clone(),
        }
    } else {
        path.clone()
    };
    base.join_bytes(name.as_slice())
}

/// Two sessions are the same only where they show the same: as many tabs on each side, at the same
/// paths, the same ones in front, a right side on both or on none, and the same side in focus.
pub proof fn same_sessions_show_the_same(a: SessionView, b: SessionView, i: int)
    requires
        same_session(a, b),
    ensures
        a.version == b.version,
        a.focus == b.focus,
        a.left.tabs.len() == b.left.tabs.len(),
        a.left.active_tab == b.left.active_tab,
        0 <= i < a.left.tabs.len() ==> path::same_path(a.left.tabs[i], b.left.tabs[i]),
        a.right is Some <==> b.right is Some,
        a.right is Some ==> a.right->0.tabs.len() == b.right->0.tabs.len()
            && a.right->0.active_tab == b.right->0.active_tab,
        a.right is Some && 0 <= i < a.right->0.tabs.len() ==> path::same_path(
            a.right->0.tabs[i],
            b.right->0.tabs[i],
        ),
        !is_nan(a.split_ratio),
        a.split_ratio == b.split_ratio || (a.split_ratio % 0x8000_0000 == 0 && b.split_ratio
            % 0x8000_0000 == 0),
{
}

/// A session is the same as itself, unless its ratio is no number, and sameness has no direction.
pub proof fn sameness_has_no_direction(a: SessionView, b: SessionView)
    ensures
        same_session(a, b) <==> same_session(b, a),
        a.split_ratio % 0x8000_0000 <= 0x7F80_0000 ==> same_session(a, a),
        a.split_ratio % 0x8000_0000 > 0x7F80_0000 ==> !same_session(a, a),
{
    assert forall|x: PaneView, y: PaneView| #[trigger] same_pane(x, y) implies same_pane(y, x) by {
        assert forall|i: int| 0 <= i < y.tabs.len() implies path::same_path(
            #[trigger] y.tabs[i],
            x.tabs[i],
        ) by {
            assert(path::same_path(x.tabs[i], y.tabs[i]));
        }
    }
    if a.right is Some && b.right is Some {
        assert(same_pane(a.right->0, b.right->0) ==> same_pane(b.right->0, a.right->0));
        assert(same_pane(b.right->0, a.right->0) ==> same_pane(a.right->0, b.right->0));
    }
    assert(same_pane(a.left, b.left) ==> same_pane(b.left, a.left));
    assert(same_pane(b.left, a.left) ==> same_pane(a.left, b.left));
}

/// A session is written to a file beside the one that it replaces: in the same directory, under the
/// same name with something behind it that tells the process.
pub proof fn temporary_file_stands_beside(base: Seq<u8>, name: Seq<u8>, process: u32)
    requires
        name.len() > 0,
        !name.contains(path::SLASH),
        name != path::here_component(),
        name != path::up_component(),
    ensures
        ({
            let t = temporary_place(path::joined(base, name), process);
            let suffix = vstd::utf8::encode_utf8(".tmp-"@ + text::decimal(process as nat));
            exists|dir: Seq<u8>|
                path::same_path(dir, base) && t == #[trigger] path::joined(dir, name + suffix)
        }),
{
    let p = path::joined(base, name);
    path::parent_undoes_joining(base, name);
    let dir = path::parent_of(p)->0;
    let suffix = vstd::utf8::encode_utf8(".tmp-"@ + text::decimal(process as nat));
    assert(temporary_place(p, process) == path::joined(dir, name + suffix));
}

/// What is said of an error: what the system said, how large the file was, or which version it had.
pub proof fn errors_tell_what_was_wrong(n: u64, v: u32, said: String)
    ensures
        SessionError::Io(said).text() == said@,
        SessionError::Json(said).text() == said@,
        SessionError::TooLarge(n).text() == "session file is too large ("@ + text::decimal(n as nat)
            + " bytes)"@,
        SessionError::UnsupportedVersion(v).text() == "unsupported session version "@
            + text::decimal(v as nat),
        SESSION_VERSION == 1,
        MAX_SESSION_BYTES == 1_048_576,
{
}

} // verus!
