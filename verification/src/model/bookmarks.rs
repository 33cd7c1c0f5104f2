//! Bookmarked directories.

use vstd::prelude::*;

use crate::model::display_text;
use crate::path;
use crate::path::FsPath;

verus! {

/// A bookmark.
#[derive(Debug)]
pub struct Bookmark {
    pub name: String,
    pub path: FsPath,
}

/// A bookmark by its name and path.
pub type BookmarkView = (Seq<char>, Seq<u8>);

impl View for Bookmark {
    type V = BookmarkView;

    open spec fn view(&self) -> BookmarkView {
        (self.name@, self.path@)
    }
}

/// All bookmarks.
#[derive(Debug)]
pub struct Bookmarks {
    pub items: Vec<Bookmark>,
}

impl View for Bookmarks {
    type V = Seq<BookmarkView>;

    open spec fn view(&self) -> Seq<BookmarkView> {
        self.items@.map_values(|b: Bookmark| b@)
    }
}

/// Whether a path is bookmarked.
pub open spec fn is_bookmarked(items: Seq<BookmarkView>, p: Seq<u8>) -> bool {
    exists|i: int| 0 <= i < items.len() && path::same_path((#[trigger] items[i]).1, p)
}

/// Whether no path is bookmarked twice.
pub open spec fn bookmarks_distinct(items: Seq<BookmarkView>) -> bool {
    forall|i: int, j: int|
        0 <= i < j < items.len() ==> !path::same_path(
            (#[trigger] items[i]).1,
            (#[trigger] items[j]).1,
        )
}

/// The name of a new bookmark: the file name, and the whole path where it has none.
pub open spec fn bookmark_name(p: Seq<u8>) -> Seq<char> {
    if path::file_name_of(p) is Some {
        display_text::shown_name(p)
    } else {
        display_text::shown(p)
    }
}

impl Default for Bookmarks {
    fn default() -> (r: Bookmarks)
        ensures
            r@.len() == 0,
    {
        Bookmarks { items: Vec::new() }
    }
}

impl Bookmarks {
    /// Bookmarks a path, unless it is bookmarked already. Says whether it was added.
    pub fn add(&mut self, path: FsPath) -> (r: bool)
        ensures
            r == !is_bookmarked(old(self)@, path@),
            final(self)@ == if r {
                old(self)@.push((bookmark_name(path@), path@))
            } else {
                old(self)@
            },
    {
        let mut i: usize = 0;
        while i < self.items.len()
            invariant
                i <= self.items@.len(),
                forall|k: int|
                    0 <= k < i ==> !path::same_path((#[trigger] self@[k]).1, path@),
            decreases self.items@.len() - i,
        {
            assert(self@[i as int] == self.items@[i as int]@);
            if self.items[i].path.same(&path) {
                return false;
            }
            i += 1;
        }
        let name = if path.file_name().is_some() {
            display_text::file_name(&path)
        } else {
            display_text::path(&path)
        };
        let ghost before = self@;
        let ghost b = (name@, path@);
        self.items.push(Bookmark { name, path });
        assert(self@ =~= before.push(b));
        true
    }

    /// Removes a bookmark; a place that does not exist is passed over. Says whether there was
    /// one.
    pub fn remove(&mut self, index: usize) -> (r: bool)
        ensures
            r == (index < old(self)@.len()),
            final(self)@ == if r {
                old(self)@.remove(index as int)
            } else {
                old(self)@
            },
    {
        if index < self.items.len() {
            let ghost before = self@;
            let _ = self.items.remove(index);
            assert(self@ =~= before.remove(index as int));
            true
        } else {
            false
        }
    }
}

/// Adding a bookmark never puts a path in twice, and a path that was added is bookmarked.
pub proof fn added_bookmarks_stay_distinct(items: Seq<BookmarkView>, p: Seq<u8>)
    requires
        bookmarks_distinct(items),
        !is_bookmarked(items, p),
    ensures
        bookmarks_distinct(items.push((bookmark_name(p), p))),
        is_bookmarked(items.push((bookmark_name(p), p)), p),
{
    let t = items.push((bookmark_name(p), p));
    assert(path::same_path(t[items.len() as int].1, p));
    assert forall|i: int, j: int| 0 <= i < j < t.len() implies !path::same_path(
        (#[trigger] t[i]).1,
        (#[trigger] t[j]).1,
    ) by {
        assert(t[i] == items[i]);
    }
}

/// Removing a bookmark leaves the others distinct.
pub proof fn removed_bookmarks_stay_distinct(items: Seq<BookmarkView>, index: int)
    requires
        bookmarks_distinct(items),
        0 <= index < items.len(),
    ensures
        bookmarks_distinct(items.remove(index)),
{
    let t = items.remove(index);
    assert forall|i: int, j: int| 0 <= i < j < t.len() implies !path::same_path(
        (#[trigger] t[i]).1,
        (#[trigger] t[j]).1,
    ) by {
        let a = if i < index {
            i
        } else {
            i + 1
        };
        let b = if j < index {
            j
        } else {
            j + 1
        };
        assert(t[i] == items[a] && t[j] == items[b]);
    }
}

/// A path is bookmarked exactly where a bookmark has it, in whatever spelling.
pub proof fn bookmarked_is_by_path(items: Seq<BookmarkView>, p: Seq<u8>, i: int)
    requires
        0 <= i < items.len(),
    ensures
        path::same_path(items[i].1, p) ==> is_bookmarked(items, p),
        (forall|k: int| 0 <= k < items.len() ==> !path::same_path((#[trigger] items[k]).1, p))
            ==> !is_bookmarked(items, p),
        !is_bookmarked(Seq::empty(), p),
{
}

/// A bookmark is called after the last component of its path, and after the whole path where that is
/// no name, such as the root.
pub proof fn bookmark_is_called_after_its_path(base: Seq<u8>, name: Seq<u8>)
    requires
        name.len() > 0,
        !name.contains(path::SLASH),
        name != path::here_component(),
        name != path::up_component(),
    ensures
        bookmark_name(path::joined(base, name)) == display_text::nfc(
            crate::text::lossy_text(name),
        ),
        bookmark_name(seq![path::SLASH]) == display_text::nfc(
            crate::text::lossy_text(seq![path::SLASH]),
        ),
{
    path::parent_undoes_joining(base, name);
    path::root_has_no_name();
}

/// A path is bookmarked where any of the bookmarks leads to it.
pub proof fn any_bookmark_leads_to_the_path(a: Seq<BookmarkView>, b: Seq<BookmarkView>, x: BookmarkView, p: Seq<u8>)
    ensures
        is_bookmarked(a + b, p) <==> is_bookmarked(a, p) || is_bookmarked(b, p),
        is_bookmarked(seq![x], p) <==> path::same_path(x.1, p),
        !is_bookmarked(Seq::<BookmarkView>::empty(), p),
{
    let all = a + b;
    if is_bookmarked(a, p) {
        let i = choose|i: int| 0 <= i < a.len() && path::same_path((#[trigger] a[i]).1, p);
        assert(all[i] == a[i]);
    }
    if is_bookmarked(b, p) {
        let i = choose|i: int| 0 <= i < b.len() && path::same_path((#[trigger] b[i]).1, p);
        assert(all[a.len() + i] == b[i]);
    }
    if is_bookmarked(all, p) {
        let i = choose|i: int| 0 <= i < all.len() && path::same_path((#[trigger] all[i]).1, p);
        assert(all[i] == if i < a.len() { a[i] } else { b[i - a.len()] });
    }
    assert(seq![x][0] == x);
}

} // verus!
