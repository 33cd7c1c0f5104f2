//! Which repository the panes are in, and whether its panel is shown; the directory that is shown
//! first; the line at the bottom.

use vstd::prelude::*;

use crate::path;
use crate::path::FsPath;
use crate::text;
use crate::text::push_decimal;
use crate::ui::file_list;
use crate::ui::sidebar;
use crate::ui::sidebar::home_directory;

verus! {

/// The repository of the directory that is shown, and whether its panel is.
#[derive(Debug)]
pub struct RepositoryWatch {
    /// The directory that was looked at last.
    pub checked_path: Option<FsPath>,
    pub workdir: Option<FsPath>,
    pub panel_open: bool,
}

/// The repository by its parts.
#[verifier::ext_equal]
pub struct RepositoryView {
    pub checked_path: Option<Seq<u8>>,
    pub workdir: Option<Seq<u8>>,
    pub panel_open: bool,
}

impl View for RepositoryWatch {
    type V = RepositoryView;

    open spec fn view(&self) -> RepositoryView {
        RepositoryView {
            checked_path: file_list::optional_path(self.checked_path),
            workdir: file_list::optional_path(self.workdir),
            panel_open: self.panel_open,
        }
    }
}

impl RepositoryView {
    /// Whether the panel is shown only in a repository.
    pub open spec fn wf(self) -> bool {
        self.panel_open ==> self.workdir is Some
    }
}

/// Whether another directory is shown than the one that was looked at.
pub open spec fn is_unchecked(v: RepositoryView, dir: Seq<u8>) -> bool {
    match v.checked_path {
        Some(p) => !path::same_path(p, dir),
        None => true,
    }
}

impl RepositoryWatch {
    /// Nothing looked at.
    pub fn new() -> (r: RepositoryWatch)
        ensures
            r@ == (RepositoryView { checked_path: None, workdir: None, panel_open: false }),
            r@.wf(),
    {
        RepositoryWatch { checked_path: None, workdir: None, panel_open: false }
    }

    /// Whether the directory that is shown has to be looked at.
    pub fn needs_check(&self, dir: &FsPath) -> (r: bool)
        ensures
            r == is_unchecked(self@, dir@),
    {
        match &self.checked_path {
            Some(p) => !p.same(dir),
            None => true,
        }
    }

    /// Takes in which repository a directory is in. The panel closes where it is in none. Says
    /// whether what the panel shows has to be read.
    pub fn checked(&mut self, dir: FsPath, workdir: Option<FsPath>) -> (r: bool)
        ensures
            r == (old(self)@.panel_open && workdir is Some),
            final(self)@ == (RepositoryView {
                checked_path: Some(dir@),
                workdir: file_list::optional_path(workdir),
                panel_open: r,
            }),
            final(self)@.wf(),
    {
        self.checked_path = Some(dir);
        let refresh = self.panel_open && workdir.is_some();
        self.workdir = workdir;
        self.panel_open = refresh;
        refresh
    }

    /// Shows or hides the panel, where there is a repository. Says whether what it shows has to be
    /// read.
    pub fn toggle(&mut self) -> (r: bool)
        ensures
            final(self)@ == (RepositoryView {
                panel_open: if old(self)@.workdir is Some {
                    !old(self)@.panel_open
                } else {
                    old(self)@.panel_open
                },
                ..old(self)@
            }),
            r == (old(self)@.workdir is Some && !old(self)@.panel_open),
            old(self)@.wf() ==> final(self)@.wf(),
    {
        if self.workdir.is_some() {
            self.panel_open = !self.panel_open;
            self.panel_open
        } else {
            false
        }
    }
}

/// The directory that is shown first: the last one where it exists, and else the home directory.
pub fn start_directory(last: Option<FsPath>, last_is_dir: bool, home: &Option<String>) -> (r: FsPath)
    ensures
        r@ == match file_list::optional_path(last) {
            Some(p) => if last_is_dir {
                p
            } else {
                sidebar::home_of(text::optional_text(*home))
            },
            None => sidebar::home_of(text::optional_text(*home)),
        },
{
    match last {
        Some(p) => if last_is_dir {
            p
        } else {
            home_directory(home)
        },
        None => home_directory(home),
    }
}

/// The line at the bottom.
pub fn status_line(count: usize, show_hidden: bool) -> (r: String)
    ensures
        r@ == text::decimal(count as nat) + " items"@ + if show_hidden {
            Seq::<char>::empty()
        } else {
            " (hidden files excluded)"@
        },
{
    let mut out: String = String::new();
    push_decimal(&mut out, count as u64);
    out.push_str(" items");
    if !show_hidden {
        out.push_str(" (hidden files excluded)");
    }
    assert(out@ =~= text::decimal(count as nat) + " items"@ + if show_hidden {
        Seq::<char>::empty()
    } else {
        " (hidden files excluded)"@
    });
    out
}

/// A directory is looked at for a repository unless it is the one that was looked at last.
pub proof fn directory_is_looked_at_once(v: RepositoryView, dir: Seq<u8>)
    ensures
        v.checked_path is None ==> is_unchecked(v, dir),
        v.checked_path is Some ==> (is_unchecked(v, dir) <==> !path::same_path(
            v.checked_path->0,
            dir,
        )),
{
}

} // verus!
