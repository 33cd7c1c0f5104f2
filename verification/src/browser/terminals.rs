//! The terminals of the window: which are open, and how their directory and the one of the panes
//! follow each other.

use vstd::prelude::*;

use crate::path;
use crate::path::FsPath;
use crate::text;
use crate::text::{concat3, replace_char};
use crate::ui::file_list;

verus! {

/// The terminals. The directory is the last one that a terminal and the panes agreed on.
#[derive(Debug)]
pub struct TerminalTabs {
    pub count: usize,
    pub active: usize,
    pub open: bool,
    pub synced: Option<FsPath>,
}

/// The terminals by their parts.
#[verifier::ext_equal]
pub struct TerminalTabsView {
    pub count: int,
    pub active: int,
    pub open: bool,
    pub synced: Option<Seq<u8>>,
}

impl View for TerminalTabs {
    type V = TerminalTabsView;

    open spec fn view(&self) -> TerminalTabsView {
        TerminalTabsView {
            count: self.count as int,
            active: self.active as int,
            open: self.open,
            synced: file_list::optional_path(self.synced),
        }
    }
}

impl TerminalTabsView {
    /// Whether the active terminal is there, where any is.
    pub open spec fn wf(self) -> bool {
        &&& 0 <= self.count
        &&& 0 <= self.active
        &&& self.count > 0 ==> self.active < self.count
    }

    /// Whether a terminal is shown.
    pub open spec fn shown(self) -> bool {
        self.open && self.count > 0
    }
}

/// The command that brings a shell to a directory; an apostrophe in it is escaped.
pub open spec fn cd_text(p: Seq<u8>) -> Seq<char> {
    "cd '"@ + text::replaced(text::lossy_text(p), '\'', "'\\''"@) + "'\r"@
}

/// The command that brings a shell to a directory.
pub fn change_directory(p: &FsPath) -> (r: String)
    ensures
        r@ == cd_text(p@),
{
    let raw = p.to_text();
    let escaped = replace_char(raw.as_str(), '\'', "'\\''");
    concat3("cd '", escaped.as_str(), "'\r")
}

/// The terminals after the panes show a directory.
pub open spec fn after_sync(t: TerminalTabsView, dir: Seq<u8>) -> TerminalTabsView {
    if t.shown() {
        match t.synced {
            Some(l) => if path::same_path(l, dir) {
                t
            } else {
                TerminalTabsView { synced: Some(dir), ..t }
            },
            None => TerminalTabsView { synced: Some(dir), ..t },
        }
    } else {
        t
    }
}

/// What is sent to the terminal when the panes show a directory: a command where it is another one
/// than they agreed on.
pub open spec fn sync_command(t: TerminalTabsView, dir: Seq<u8>) -> Option<Seq<char>> {
    match t.synced {
        Some(l) => if t.shown() && !path::same_path(l, dir) {
            Some(cd_text(dir))
        } else {
            None
        },
        None => None,
    }
}

/// The terminals after the active one has gone to a directory.
pub open spec fn after_report(t: TerminalTabsView, dir: Seq<u8>, exists_there: bool) -> TerminalTabsView {
    if exists_there {
        TerminalTabsView { synced: Some(dir), ..t }
    } else {
        t
    }
}

impl TerminalTabs {
    /// No terminal.
    pub fn new() -> (r: TerminalTabs)
        ensures
            r@ == (TerminalTabsView { count: 0, active: 0, open: false, synced: None }),
            r@.wf(),
    {
        TerminalTabs { count: 0, active: 0, open: false, synced: None }
    }

    /// Whether showing the terminals needs a first one to be started.
    pub fn needs_first(&self) -> (r: bool)
        ensures
            r == (!self@.open && self@.count == 0),
    {
        !self.open && self.count == 0
    }

    /// Shows or hides the terminals. `started` says whether a first one that was needed has been
    /// started; without it nothing is shown.
    pub fn toggle(&mut self, started: bool)
        requires
            old(self)@.wf(),
        ensures
            final(self)@ == if old(self)@.open {
                TerminalTabsView { open: false, ..old(self)@ }
            } else if old(self)@.count > 0 {
                TerminalTabsView { open: true, synced: None, ..old(self)@ }
            } else if started {
                TerminalTabsView { count: 1, active: 0, open: true, synced: None }
            } else {
                old(self)@
            },
            final(self)@.wf(),
    {
        if self.open {
            self.open = false;
            return ;
        }
        if self.count == 0 {
            if !started {
                return ;
            }
            self.count = 1;
            self.active = 0;
        }
        self.open = true;
        self.synced = None;
    }

    /// Takes in that a further terminal has been started; it is shown.
    pub fn add(&mut self)
        requires
            old(self)@.wf(),
            old(self)@.count < usize::MAX,
        ensures
            final(self)@ == (TerminalTabsView {
                count: old(self)@.count + 1,
                active: old(self)@.count,
                synced: None,
                ..old(self)@
            }),
            final(self)@.wf(),
    {
        self.active = self.count;
        self.count = self.count + 1;
        self.synced = None;
    }

    /// Takes in that a terminal is gone. With the last one the terminals are hidden.
    pub fn close(&mut self, idx: usize)
        requires
            old(self)@.wf(),
            idx < old(self)@.count,
        ensures
            final(self)@ == if old(self)@.count == 1 {
                TerminalTabsView { count: 0, open: false, ..old(self)@ }
            } else {
                TerminalTabsView {
                    count: old(self)@.count - 1,
                    active: if old(self)@.active >= old(self)@.count - 1 {
                        old(self)@.count - 2
                    } else {
                        old(self)@.active
                    },
                    synced: None,
                    ..old(self)@
                }
            },
            final(self)@.wf(),
    {
        self.count = self.count - 1;
        if self.count == 0 {
            self.open = false;
        } else {
            if self.active >= self.count {
                self.active = self.count - 1;
            }
            self.synced = None;
        }
    }

    /// Shows another terminal.
    pub fn switch(&mut self, idx: usize)
        requires
            old(self)@.wf(),
            idx < old(self)@.count,
        ensures
            final(self)@ == (TerminalTabsView { active: idx as int, synced: None, ..old(self)@ }),
            final(self)@.wf(),
    {
        self.active = idx;
        self.synced = None;
    }

    /// Takes in that the active terminal has gone to a directory. Returns it where the panes are to
    /// follow: where it exists.
    pub fn directory_reported(&mut self, dir: FsPath, exists_there: bool) -> (r: Option<FsPath>)
        ensures
            final(self)@ == after_report(old(self)@, dir@, exists_there),
            file_list::optional_path(r) == if exists_there {
                Some(dir@)
            } else {
                None
            },
    {
        if exists_there {
            self.synced = Some(dir.clone());
            Some(dir)
        } else {
            None
        }
    }

    /// Takes in which directory the panes show. Returns what is sent to the active terminal.
    pub fn sync(&mut self, dir: &FsPath) -> (r: Option<String>)
        ensures
            final(self)@ == after_sync(old(self)@, dir@),
            text::optional_text(r) == sync_command(old(self)@, dir@),
    {
        if !self.open || self.count == 0 {
            return None;
        }
        let moved = match &self.synced {
            Some(l) => if l.same(dir) {
                return None;
            } else {
                true
            },
            None => false,
        };
        self.synced = Some(dir.clone());
        if moved {
            Some(change_directory(dir))
        } else {
            None
        }
    }
}

/// A terminal is told of a directory once: while the panes stay there nothing more is sent.
pub proof fn directory_is_sent_once(t: TerminalTabsView, dir: Seq<u8>)
    ensures
        sync_command(after_sync(t, dir), dir) is None,
{
}

/// A directory that a terminal has gone to is not sent back to it.
pub proof fn reported_directory_is_not_sent_back(t: TerminalTabsView, dir: Seq<u8>)
    ensures
        sync_command(after_report(t, dir, true), dir) is None,
{
}

/// A shell is sent to a directory by its name between single quotes, in which a single quote is
/// written so that it does not end them, and a carriage return.
pub proof fn shell_is_sent_to_the_directory(
    dir: Seq<u8>,
    before: Seq<char>,
    behind: Seq<char>,
)
    requires
        !before.contains('\''),
        !behind.contains('\''),
    ensures
        text::lossy_text(dir) == before ==> cd_text(dir) == "cd '"@ + before + "'\r"@,
        text::lossy_text(dir) == before + seq!['\''] + behind ==> cd_text(dir) == "cd '"@ + (before
            + "'\\''"@ + behind) + "'\r"@,
{
    let quote = '\'';
    let by = "'\\''"@;
    text::lemma_replaced_without(before, quote, by);
    text::lemma_replaced_without(behind, quote, by);
    text::replacing_goes_through_the_text(before + seq![quote], behind, quote, by, 'a');
    text::replacing_goes_through_the_text(before, seq![quote], quote, by, 'a');
}

/// A terminal that is shown is told where the panes have gone, unless it is told for the first time:
/// then it starts there. One that is not shown is told nothing and remembers nothing.
pub proof fn shown_terminal_follows_the_panes(t: TerminalTabsView, dir: Seq<u8>)
    ensures
        ({
            let shown = t.open && t.count > 0;
            &&& sync_command(t, dir) is Some <==> shown && t.synced is Some && !path::same_path(
                t.synced->0,
                dir,
            )
            &&& sync_command(t, dir) is Some ==> sync_command(t, dir)->0 == cd_text(dir)
            &&& !shown ==> after_sync(t, dir) == t
            &&& shown ==> after_sync(t, dir).synced is Some && path::same_path(
                after_sync(t, dir).synced->0,
                dir,
            )
            &&& after_sync(t, dir).count == t.count && after_sync(t, dir).active == t.active
                && after_sync(t, dir).open == t.open
        }),
{
}

/// A directory that a terminal reports is remembered where there is one, and passed over elsewhere.
pub proof fn reported_directory_is_remembered(t: TerminalTabsView, dir: Seq<u8>)
    ensures
        after_report(t, dir, true).synced == Some(dir),
        after_report(t, dir, false) == t,
        after_report(t, dir, true).count == t.count && after_report(t, dir, true).active == t.active
            && after_report(t, dir, true).open == t.open,
{
}

} // verus!
