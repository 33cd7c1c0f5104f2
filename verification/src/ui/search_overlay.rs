//! The search overlay: the selected result, and what the keys ask for.

use vstd::prelude::*;

use crate::path;
use crate::path::FsPath;
use crate::text;
use crate::text::concat3;

verus! {

/// What the overlay asks for.
#[derive(Debug)]
pub enum SearchAction {
    /// Go to a path.
    Navigate(FsPath),
    /// Go away.
    Close,
}

/// The keys that were pressed.
#[derive(Clone, Copy, Debug, PartialEq, Eq, Structural)]
pub struct SearchKeys {
    pub escape: bool,
    pub enter: bool,
    pub up: bool,
    pub down: bool,
}

/// The selected result after the arrow keys, within the results.
pub open spec fn selected_after(selected: int, count: int, keys: SearchKeys) -> int {
    let a = if keys.up && selected > 0 {
        selected - 1
    } else {
        selected
    };
    let b = if keys.down && a + 1 < count {
        a + 1
    } else {
        a
    };
    if count > 0 && b >= count {
        count - 1
    } else {
        b
    }
}

/// Takes in the keys: escape goes away, the arrows move the selection, return goes to the
/// selected result where there is one.
pub fn handle_keys(keys: SearchKeys, results: &Vec<FsPath>, selected: &mut usize) -> (r: Option<
    SearchAction,
>)
    ensures
        *final(selected) == if keys.escape {
            *old(selected) as int
        } else {
            selected_after(*old(selected) as int, results@.len() as int, keys)
        },
        match r {
            Some(SearchAction::Close) => keys.escape,
            Some(SearchAction::Navigate(p)) => !keys.escape && keys.enter && results@.len() > 0
                && p@ == results@[*final(selected) as int]@,
            None => !keys.escape && (!keys.enter || results@.len() == 0),
        },
{
    if keys.escape {
        return Some(SearchAction::Close);
    }
    let n: usize = results.len();
    if keys.up && *selected > 0 {
        *selected = *selected - 1;
    }
    if keys.down && n > 0 && *selected < n - 1 {
        *selected = *selected + 1;
    }
    if n > 0 && *selected >= n {
        *selected = n - 1;
    }
    if keys.enter && n > 0 {
        return Some(SearchAction::Navigate(results[*selected].clone()));
    }
    None
}

/// Whatever keys are pressed, the selected one is among the results, where there are any.
pub proof fn selection_stays_among_results(selected: int, count: int, keys: SearchKeys)
    requires
        0 <= selected,
        0 < count,
    ensures
        0 <= selected_after(selected, count, keys) < count,
{
}

/// How a result is shown below its name: the path inside the root, a dot for the root itself.
pub open spec fn relative_text(root: Seq<u8>, p: Seq<u8>) -> Seq<char> {
    match path::stripped(p, root) {
        Some(inner) => if text::lossy_text(inner).len() == 0 {
            "."@
        } else {
            text::lossy_text(inner)
        },
        None => text::lossy_text(p),
    }
}

/// How a result is shown below its name.
pub fn relative_display(root: &FsPath, path: &FsPath) -> (r: String)
    ensures
        r@ == relative_text(root@, path@),
{
    match path.strip_prefix(root) {
        Some(inner) => {
            let s = inner.to_text();
            if s.as_str().is_empty() {
                ".".to_owned()
            } else {
                s
            }
        },
        None => path.to_text(),
    }
}

/// The name of a result: the file name, and the whole path where it has none.
pub open spec fn result_name(p: Seq<u8>) -> Seq<char> {
    match path::file_name_of(p) {
        Some(n) => text::lossy_text(n),
        None => text::lossy_text(p),
    }
}

/// The title of a result, with its icon.
pub fn result_title(path: &FsPath, is_dir: bool) -> (r: String)
    ensures
        r@ == (if is_dir {
            "📁"@
        } else {
            "📄"@
        }) + " "@ + result_name(path@),
{
    let name = match path.file_name_text() {
        Some(n) => n,
        None => path.to_text(),
    };
    let icon = if is_dir {
        "📁"
    } else {
        "📄"
    };
    concat3(icon, " ", name.as_str())
}

/// The directory that is gone to for a result: the result itself, or the one that it is in.
pub open spec fn directory_for(p: Seq<u8>, is_dir: bool) -> Seq<u8> {
    if is_dir {
        p
    } else {
        match path::parent_of(p) {
            Some(q) => q,
            None => p,
        }
    }
}

/// The directory that is gone to for a result.
pub fn result_directory(path: &FsPath, is_dir: bool) -> (r: FsPath)
    ensures
        r@ == directory_for(path@, is_dir),
{
    if is_dir {
        path.clone()
    } else {
        match path.parent() {
            Some(q) => q,
            None => path.clone(),
        }
    }
}

/// The keys go through the results one by one and stop at the first and the last.
pub proof fn keys_go_through_the_results(selected: int, count: int, keys: SearchKeys)
    requires
        0 <= selected < count,
    ensures
        keys.up && !keys.down && selected > 0 ==> selected_after(selected, count, keys) == selected
            - 1,
        keys.up && !keys.down && selected == 0 ==> selected_after(selected, count, keys) == 0,
        keys.down && !keys.up && selected + 1 < count ==> selected_after(selected, count, keys)
            == selected + 1,
        keys.down && !keys.up && selected + 1 == count ==> selected_after(selected, count, keys)
            == selected,
        !keys.up && !keys.down ==> selected_after(selected, count, keys) == selected,
        keys.up && keys.down && selected > 0 ==> selected_after(selected, count, keys) == selected,
{
}

/// Where there are fewer results than before, the last one is selected.
pub proof fn selection_falls_back_to_the_last_result(selected: int, count: int, keys: SearchKeys)
    requires
        count > 0,
        selected > count,
    ensures
        selected_after(selected, count, keys) == count - 1,
{
}

/// A result is shown by its name, and by where it is inside the directory that is searched.
pub proof fn result_is_shown_inside_the_root(root: Seq<u8>, base: Seq<u8>, name: Seq<u8>)
    requires
        name.len() > 0,
        !name.contains(path::SLASH),
        name != path::here_component(),
        name != path::up_component(),
    ensures
        result_name(path::joined(base, name)) == text::lossy_text(name),
        result_name(seq![path::SLASH]) == text::lossy_text(seq![path::SLASH]),
        !path::path_starts_with(base, root) ==> relative_text(root, base) == text::lossy_text(base),
        path::path_starts_with(base, root) ==> exists|inner: Seq<u8>|
            {
                &&& path::components(inner) == path::components(base).skip(
                    path::components(root).len() as int,
                )
                &&& relative_text(root, base) == if text::lossy_text(inner).len() == 0 {
                    "."@
                } else {
                    #[trigger] text::lossy_text(inner)
                }
            },
{
    path::parent_undoes_joining(base, name);
    path::root_has_no_name();
    if path::path_starts_with(base, root) {
        path::stripped_path_has_the_remaining_components(base, root);
        let inner = path::stripped(base, root)->0;
        assert(text::lossy_text(inner) == text::lossy_text(inner));
    }
}

/// A result that is a directory is gone to, and for any other one the directory that holds it.
pub proof fn file_is_found_in_its_directory(base: Seq<u8>, name: Seq<u8>)
    requires
        name.len() > 0,
        !name.contains(path::SLASH),
        name != path::here_component(),
    ensures
        directory_for(path::joined(base, name), true) == path::joined(base, name),
        path::same_path(directory_for(path::joined(base, name), false), base),
{
    path::parent_undoes_joining(base, name);
}

} // verus!
