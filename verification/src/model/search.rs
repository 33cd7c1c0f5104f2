//! Search by name: what is matched and when the pattern changes.

use vstd::prelude::*;

use crate::model::display_text;
use crate::path;
use crate::path::FsPath;

verus! {

/// How many levels below the root are searched.
pub const SEARCH_DEPTH: usize = 12;

/// How many results are shown.
pub const SEARCH_RESULTS: u32 = 200;

/// Whether what stands so many levels below the root is searched: not the root itself.
pub fn is_searched(depth: usize) -> (r: bool)
    ensures
        r == (1 <= depth <= SEARCH_DEPTH),
{
    1 <= depth && depth <= SEARCH_DEPTH
}

/// How many of the paths that match are shown.
pub fn shown_results(matched: u32, limit: u32) -> (r: u32)
    ensures
        r == if matched < limit {
            matched
        } else {
            limit
        },
{
    if matched < limit {
        matched
    } else {
        limit
    }
}

/// The text of a found path that the pattern is matched against: the path inside the root, for
/// presentation.
pub open spec fn match_column(root: Seq<u8>, p: Seq<u8>) -> Seq<char> {
    match path::stripped(p, root) {
        Some(inner) => display_text::shown(inner),
        None => display_text::shown(p),
    }
}

/// The text of a found path that the pattern is matched against.
pub fn match_text(root: &FsPath, path: &FsPath) -> (r: String)
    ensures
        r@ == match_column(root@, path@),
{
    match path.strip_prefix(root) {
        Some(inner) => display_text::path(&inner),
        None => display_text::path(path),
    }
}

/// The pattern that is being searched for.
#[derive(Debug)]
pub struct SearchQuery {
    pub last: String,
}

impl SearchQuery {
    /// The empty pattern.
    pub fn new() -> (r: SearchQuery)
        ensures
            r.last@.len() == 0,
    {
        SearchQuery { last: String::new() }
    }

    /// Takes what the user typed. Returns the new pattern where it has changed: text that looks
    /// the same is the same pattern.
    pub fn set_query(&mut self, query: &str) -> (r: Option<String>)
        ensures
            final(self).last@ == display_text::nfc(query@),
            match r {
                Some(p) => p@ == display_text::nfc(query@) && p@ != old(self).last@,
                None => display_text::nfc(query@) == old(self).last@,
            },
    {
        let normalized = display_text::normalize(query);
        self.set_pattern(normalized)
    }

    /// Takes a normalized pattern. Returns it where it has changed.
    pub fn set_pattern(&mut self, normalized: String) -> (r: Option<String>)
        ensures
            final(self).last@ == normalized@,
            match r {
                Some(p) => p@ == normalized@ && p@ != old(self).last@,
                None => normalized@ == old(self).last@,
            },
    {
        if self.last == normalized {
            return None;
        }
        self.last = normalized.clone();
        Some(normalized)
    }
}

/// What a search compares of a path is what stands behind the directory that is searched: the name of
/// what lies directly in it. A path elsewhere is compared as a whole.
pub proof fn search_compares_what_lies_inside(root: Seq<u8>, p: Seq<u8>)
    ensures
        !path::path_starts_with(p, root) ==> match_column(root, p) == display_text::shown(p),
        path::path_starts_with(p, root) ==> exists|inner: Seq<u8>|
            match_column(root, p) == #[trigger] display_text::shown(inner) && path::components(
                inner,
            ) == path::components(p).skip(path::components(root).len() as int),
        SEARCH_DEPTH == 12,
        SEARCH_RESULTS == 200,
{
    if path::path_starts_with(p, root) {
        path::stripped_path_has_the_remaining_components(p, root);
        let inner = path::stripped(p, root)->0;
        assert(match_column(root, p) == display_text::shown(inner));
    }
}

} // verus!
