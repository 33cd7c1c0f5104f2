//! The sidebar: favorite places, bookmarks and the tags that the user has set up.

use vstd::prelude::*;

use crate::model::config;
use crate::model::global_tags;
use crate::model::global_tags::{GlobalTag, GlobalTags};
use crate::path;
use crate::path::FsPath;
use crate::path_list::copy_paths;
use crate::text;
use crate::text::{concat3, trim};

verus! {

/// What the sidebar asks for.
#[derive(Debug)]
pub enum SidebarAction {
    Navigate(FsPath),
    OpenFile(FsPath),
    AddBookmark(FsPath),
    /// The dragged paths and the directory that they go to.
    MoveFilesTo(Vec<FsPath>, FsPath),
    FilterTag(Option<String>),
    CreateTag(String, u8),
    DeleteTag(usize),
    StartEdit(usize),
    /// The place, the new name and the new colour.
    CommitEdit(usize, String, u8),
    CancelEdit,
}

/// A favorite place.
#[derive(Debug)]
pub struct FavoriteLocation {
    pub name: &'static str,
    pub path: FsPath,
}

/// A favorite place by its name and path.
pub type FavoriteView = (Seq<char>, Seq<u8>);

impl View for FavoriteLocation {
    type V = FavoriteView;

    open spec fn view(&self) -> FavoriteView {
        (self.name@, self.path@)
    }
}

/// The home directory, and the root where it is not known.
pub open spec fn home_of(home: Option<Seq<char>>) -> Seq<u8> {
    vstd::utf8::encode_utf8(
        match home {
            Some(h) => h,
            None => "/"@,
        },
    )
}

/// The favorite places.
pub open spec fn favorites(home: Option<Seq<char>>) -> Seq<FavoriteView> {
    seq![
        ("Home"@, home_of(home)),
        ("Desktop"@, config::inside(home_of(home), "Desktop"@)),
        ("Downloads"@, config::inside(home_of(home), "Downloads"@)),
        ("Documents"@, config::inside(home_of(home), "Documents"@)),
        ("Applications"@, vstd::utf8::encode_utf8("/Applications"@)),
    ]
}

/// The home directory, and the root where it is not known.
pub fn home_directory(home: &Option<String>) -> (r: FsPath)
    ensures
        r@ == home_of(text::optional_text(*home)),
{
    match home {
        Some(h) => FsPath::new(h.as_str()),
        None => FsPath::new("/"),
    }
}

/// The favorite places of a home directory.
pub fn favorite_locations(home: &Option<String>) -> (r: Vec<FavoriteLocation>)
    ensures
        r@.map_values(|f: FavoriteLocation| f@) == favorites(text::optional_text(*home)),
{
    let base = home_directory(home);
    let mut out: Vec<FavoriteLocation> = Vec::new();
    out.push(FavoriteLocation { name: "Home", path: base.clone() });
    out.push(FavoriteLocation { name: "Desktop", path: base.join(&FsPath::new("Desktop")) });
    out.push(FavoriteLocation { name: "Downloads", path: base.join(&FsPath::new("Downloads")) });
    out.push(FavoriteLocation { name: "Documents", path: base.join(&FsPath::new("Documents")) });
    out.push(FavoriteLocation { name: "Applications", path: FsPath::new("/Applications") });
    assert(out@.map_values(|f: FavoriteLocation| f@) =~= favorites(text::optional_text(*home)));
    out
}

/// What a click on a bookmark asks for: to go to a directory, to open anything else.
pub fn open_bookmark(path: &FsPath, is_dir: bool) -> (r: SidebarAction)
    ensures
        match r {
            SidebarAction::Navigate(p) => is_dir && p@ == path@,
            SidebarAction::OpenFile(p) => !is_dir && p@ == path@,
            _ => false,
        },
{
    if is_dir {
        SidebarAction::Navigate(path.clone())
    } else {
        SidebarAction::OpenFile(path.clone())
    }
}

/// What a drop on a bookmark asks for: to move the dragged files into its directory.
pub fn drop_on_bookmark(dragging: &Vec<FsPath>, path: &FsPath) -> (r: SidebarAction)
    ensures
        r matches SidebarAction::MoveFilesTo(paths, to) && path::path_views(paths@)
            == path::path_views(dragging@) && to@ == path@,
{
    SidebarAction::MoveFilesTo(copy_paths(dragging), path.clone())
}

/// What a drop on the section of the bookmarks asks for: to bookmark the dragged paths, unless a
/// bookmark has taken the drop.
pub fn drop_on_section(dragging: &Vec<FsPath>, handled: bool) -> (r: Vec<SidebarAction>)
    ensures
        handled ==> r@.len() == 0,
        !handled ==> r@.len() == dragging@.len() && forall|i: int|
            0 <= i < r@.len() ==> (#[trigger] r@[i] matches SidebarAction::AddBookmark(p) && p@
                == dragging@[i]@),
{
    let mut out: Vec<SidebarAction> = Vec::new();
    if handled {
        return out;
    }
    let mut i: usize = 0;
    while i < dragging.len()
        invariant
            i <= dragging@.len(),
            out@.len() == i,
            forall|k: int|
                0 <= k < i ==> (#[trigger] out@[k] matches SidebarAction::AddBookmark(p) && p@
                    == dragging@[k]@),
        decreases dragging@.len() - i,
    {
        out.push(SidebarAction::AddBookmark(dragging[i].clone()));
        i += 1;
    }
    out
}

/// What a click on a tag asks for: to show what has it, and to show everything where it is the
/// one that is shown.
pub fn click_tag(tag: &GlobalTag, active_tag: &Option<String>) -> (r: SidebarAction)
    ensures
        r matches SidebarAction::FilterTag(f) && text::optional_text(f) == if text::optional_text(
            *active_tag,
        ) == Some(tag.name@) {
            None
        } else {
            Some(tag.name@)
        },
{
    let is_active = match active_tag {
        Some(a) => *a == tag.name,
        None => false,
    };
    if is_active {
        SidebarAction::FilterTag(None)
    } else {
        SidebarAction::FilterTag(Some(tag.name.clone()))
    }
}

/// The fields in which tags are set up and edited.
#[derive(Debug)]
pub struct TagEditor {
    pub new_name: String,
    pub new_color: u8,
    /// The place of the tag that is being edited.
    pub index: Option<usize>,
    pub name: String,
    pub color: u8,
}

/// What handling an action on tags left to do.
#[derive(Debug)]
pub struct TagOutcome {
    /// Whether the tags have to be saved.
    pub save: bool,
    pub message: Option<String>,
}

impl Default for TagEditor {
    fn default() -> (r: TagEditor)
        ensures
            r.new_name@.len() == 0,
            r.new_color == 6,
            r.index is None,
            r.name@.len() == 0,
            r.color == 6,
    {
        TagEditor {
            new_name: String::new(),
            new_color: 6,
            index: None,
            name: String::new(),
            color: 6,
        }
    }
}

impl TagEditor {
    /// Takes the name that was typed for a new tag, where one was.
    pub fn take_new_tag(&mut self) -> (r: Option<SidebarAction>)
        ensures
            match r {
                Some(SidebarAction::CreateTag(name, color)) => text::trimmed(
                    old(self).new_name@,
                ).len() > 0 && name@ == text::trimmed(old(self).new_name@) && color
                    == old(self).new_color && final(self).new_name@.len() == 0,
                Some(_) => false,
                None => text::trimmed(old(self).new_name@).len() == 0 && final(self).new_name@
                    == old(self).new_name@,
            },
            *final(self) == (TagEditor { new_name: final(self).new_name, ..*old(self) }),
    {
        let name = trim(self.new_name.as_str());
        if name.as_str().is_empty() {
            None
        } else {
            self.new_name = String::new();
            Some(SidebarAction::CreateTag(name, self.new_color))
        }
    }

    /// What the keys of the editor of a tag ask for: escape leaves it as it was; return, or going
    /// elsewhere, keeps the change where a name is left.
    pub fn edit_action(&self, idx: usize, escape: bool, enter: bool, lost_focus: bool) -> (r: Option<
        SidebarAction,
    >)
        ensures
            match r {
                Some(SidebarAction::CancelEdit) => escape || ((enter || lost_focus)
                    && text::trimmed(self.name@).len() == 0),
                Some(SidebarAction::CommitEdit(i, name, color)) => !escape && (enter || lost_focus)
                    && text::trimmed(self.name@).len() > 0 && i == idx && name@ == text::trimmed(
                    self.name@,
                ) && color == self.color,
                Some(_) => false,
                None => !escape && !enter && !lost_focus,
            },
    {
        if escape {
            Some(SidebarAction::CancelEdit)
        } else if enter || lost_focus {
            let name = trim(self.name.as_str());
            if name.as_str().is_empty() {
                Some(SidebarAction::CancelEdit)
            } else {
                Some(SidebarAction::CommitEdit(idx, name, self.color))
            }
        } else {
            None
        }
    }

    /// Sets up a tag, and says so where one of this name is there.
    pub fn create_tag(&self, tags: &mut GlobalTags, name: String, color: u8) -> (r: TagOutcome)
        ensures
            r.save == !global_tags::has_name(old(tags)@, name@),
            final(tags)@ == if r.save {
                old(tags)@.push((name@, color))
            } else {
                old(tags)@
            },
            text::optional_text(r.message) == if r.save {
                None
            } else {
                Some("Tag '"@ + name@ + "' already exists"@)
            },
    {
        let copy = name.clone();
        if tags.add(name, color) {
            TagOutcome { save: true, message: None }
        } else {
            TagOutcome {
                save: false,
                message: Some(concat3("Tag '", copy.as_str(), "' already exists")),
            }
        }
    }

    /// Removes a tag. One that was being edited is so no longer.
    pub fn delete_tag(&mut self, tags: &mut GlobalTags, idx: usize) -> (r: TagOutcome)
        ensures
            r.save == (idx < old(tags)@.len()),
            r.message is None,
            final(tags)@ == if r.save {
                old(tags)@.remove(idx as int)
            } else {
                old(tags)@
            },
            *final(self) == (TagEditor {
                index: if old(self).index == Some(idx) {
                    None
                } else {
                    old(self).index
                },
                ..*old(self)
            }),
    {
        let save = tags.remove(idx);
        let edited = match self.index {
            Some(i) => i == idx,
            None => false,
        };
        if edited {
            self.index = None;
        }
        TagOutcome { save, message: None }
    }

    /// Begins to edit a tag, from what it is; a place that does not exist is passed over.
    pub fn start_edit(&mut self, tags: &GlobalTags, idx: usize)
        ensures
            if idx < tags@.len() {
                &&& final(self).index == Some(idx)
                &&& (final(self).name@, final(self).color) == tags@[idx as int]
                &&& final(self).new_name == old(self).new_name
                &&& final(self).new_color == old(self).new_color
            } else {
                *final(self) == *old(self)
            },
    {
        assert(tags@.len() == tags.items@.len());
        if idx < tags.items.len() {
            assert(tags@[idx as int] == tags.items@[idx as int]@);
            self.index = Some(idx);
            self.name = tags.items[idx].name.clone();
            self.color = tags.items[idx].color;
        }
    }

    /// Keeps the change of a tag and ends the editing.
    pub fn commit_edit(&mut self, tags: &mut GlobalTags, idx: usize, name: String, color: u8) -> (r:
        TagOutcome)
        ensures
            r.save == (idx < old(tags)@.len()),
            r.message is None,
            final(tags)@ == if r.save {
                old(tags)@.update(idx as int, (name@, color))
            } else {
                old(tags)@
            },
            *final(self) == (TagEditor { index: None, ..*old(self) }),
    {
        let ghost before = tags@;
        let ghost n = name@;
        let renamed = tags.rename(idx, name);
        let colored = tags.set_color(idx, color);
        self.index = None;
        proof {
            if idx < before.len() {
                assert(tags@ =~= before.update(idx as int, (n, color)));
            }
        }
        TagOutcome { save: renamed || colored, message: None }
    }

    /// Ends the editing of a tag.
    pub fn cancel_edit(&mut self)
        ensures
            *final(self) == (TagEditor { index: None, ..*old(self) }),
    {
        self.index = None;
    }
}

/// The favourites are the home directory, three directories in it, each called by its own name, and
/// the applications. Without a home they are at the root.
pub proof fn favorites_lie_at_home(home: Seq<char>)
    ensures
        ({
            let f = favorites(Some(home));
            let at = vstd::utf8::encode_utf8(home);
            &&& f.len() == 5
            &&& f[0] == ("Home"@, at)
            &&& f[1] == ("Desktop"@, path::joined(at, vstd::utf8::encode_utf8("Desktop"@)))
            &&& f[2] == ("Downloads"@, path::joined(at, vstd::utf8::encode_utf8("Downloads"@)))
            &&& f[3] == ("Documents"@, path::joined(at, vstd::utf8::encode_utf8("Documents"@)))
            &&& f[4] == ("Applications"@, vstd::utf8::encode_utf8("/Applications"@))
        }),
        favorites(None) == favorites(Some("/"@)),
{
}

} // verus!
