//! Files on the clipboard.

use vstd::prelude::*;

use crate::path;
use crate::path::FsPath;
use crate::path_list;
use crate::path_list::push_unique;
use crate::platform::drag;
use crate::platform::drag::existing_paths;
use crate::text;
use crate::text::{join_texts, lines};

verus! {

/// Files on the clipboard, and the state of the clipboard when they were read.
#[derive(Debug)]
pub struct FileClipboard {
    pub paths: Vec<FsPath>,
    pub change_count: i64,
}

/// The texts of paths.
pub open spec fn path_texts(paths: Seq<Seq<u8>>) -> Seq<Seq<char>> {
    paths.map_values(|p: Seq<u8>| text::lossy_text(p))
}

/// The text that stands for files: their paths, one in a line.
pub fn files_text(paths: &Vec<FsPath>) -> (r: String)
    ensures
        r@ == text::joined_by(path_texts(path::path_views(paths@)), "\n"@),
{
    let ghost all = path_texts(path::path_views(paths@));
    let mut texts: Vec<String> = Vec::new();
    let mut i: usize = 0;
    assert(text::text_views(texts@) =~= all.take(0));
    while i < paths.len()
        invariant
            i <= paths@.len(),
            all == path_texts(path::path_views(paths@)),
            text::text_views(texts@) == all.take(i as int),
        decreases paths@.len() - i,
    {
        let ghost before = text::text_views(texts@);
        let t = paths[i].to_text();
        let ghost v = t@;
        texts.push(t);
        i += 1;
        assert(text::text_views(texts@) =~= before.push(v));
        assert(text::text_views(texts@) =~= all.take(i as int));
    }
    assert(all.take(i as int) =~= all);
    join_texts(&texts, "\n")
}

/// An object on the clipboard: whether it is the address of a file, and its path where it has
/// one.
#[derive(Debug)]
pub struct ClipboardObject {
    pub is_file: bool,
    pub path: Option<String>,
}

/// The paths of the files among the objects, each once.
pub open spec fn object_paths(objects: Seq<ClipboardObject>) -> Seq<Seq<u8>>
    decreases objects.len(),
{
    if objects.len() == 0 {
        Seq::empty()
    } else {
        let rest = object_paths(objects.drop_last());
        let last = objects.last();
        if last.is_file && last.path is Some {
            path_list::pushed_unique(rest, vstd::utf8::encode_utf8(last.path->0@))
        } else {
            rest
        }
    }
}

/// The files among the objects on the clipboard.
pub fn read_objects(objects: &Vec<ClipboardObject>, change_count: i64) -> (r: Result<
    FileClipboard,
    String,
>)
    ensures
        match r {
            Ok(c) => path::path_views(c.paths@) == object_paths(objects@) && c.paths@.len() > 0
                && c.change_count == change_count,
            Err(e) => object_paths(objects@).len() == 0 && e@
                == "Clipboard does not contain files"@,
        },
{
    let mut paths: Vec<FsPath> = Vec::new();
    let mut i: usize = 0;
    assert(path::path_views(paths@) =~= object_paths(objects@.take(0)));
    while i < objects.len()
        invariant
            i <= objects@.len(),
            path::path_views(paths@) == object_paths(objects@.take(i as int)),
        decreases objects@.len() - i,
    {
        proof {
            assert(objects@.take(i + 1).drop_last() =~= objects@.take(i as int));
            assert(objects@.take(i + 1).last() == objects@[i as int]);
        }
        if objects[i].is_file {
            if let Some(p) = &objects[i].path {
                push_unique(&mut paths, FsPath::new(p.as_str()));
            }
        }
        i += 1;
    }
    proof {
        assert(objects@.take(i as int) =~= objects@);
        assert(path::path_views(paths@).len() == paths@.len());
    }
    if paths.len() == 0 {
        return Err("Clipboard does not contain files".to_owned());
    }
    Ok(FileClipboard { paths, change_count })
}

/// The paths that the lines of a text spell.
pub open spec fn line_paths(s: Seq<char>) -> Seq<Seq<u8>> {
    text::lines_of(s).map_values(|l: Seq<char>| vstd::utf8::encode_utf8(l))
}

/// The paths that the lines of a text spell.
pub fn paths_in_text(s: &str) -> (r: Vec<FsPath>)
    ensures
        path::path_views(r@) == line_paths(s@),
{
    let all = lines(s);
    let ghost views = line_paths(s@);
    let mut out: Vec<FsPath> = Vec::new();
    let mut i: usize = 0;
    assert(text::text_views(all@).len() == all@.len());
    assert(path::path_views(out@) =~= views.take(0));
    while i < all.len()
        invariant
            i <= all@.len(),
            text::text_views(all@) == text::lines_of(s@),
            views == line_paths(s@),
            views.len() == all@.len(),
            path::path_views(out@) == views.take(i as int),
        decreases all@.len() - i,
    {
        let ghost before = path::path_views(out@);
        assert(text::text_views(all@)[i as int] == all@[i as int]@);
        let p = FsPath::new(all[i].as_str());
        let ghost v = p@;
        out.push(p);
        i += 1;
        assert(path::path_views(out@) =~= before.push(v));
        assert(path::path_views(out@) =~= views.take(i as int));
    }
    assert(views.take(i as int) =~= views);
    out
}

/// The files of a text on the clipboard: those of its paths that exist.
pub fn existing_files(paths: &Vec<FsPath>, exists: &Vec<bool>) -> (r: Result<
    FileClipboard,
    String,
>)
    requires
        exists@.len() == paths@.len(),
    ensures
        match r {
            Ok(c) => path::path_views(c.paths@) == drag::kept_paths(
                path::path_views(paths@),
                exists@,
            ) && c.paths@.len() > 0 && c.change_count == 0,
            Err(e) => drag::kept_paths(path::path_views(paths@), exists@).len() == 0 && e@
                == "Clipboard does not contain files"@,
        },
{
    match existing_paths(paths, exists) {
        Ok(kept) => Ok(FileClipboard { paths: kept, change_count: 0 }),
        Err(_) => Err("Clipboard does not contain files".to_owned()),
    }
}

/// The files on the clipboard are those objects that are files with a path, in their order and each
/// once.
pub proof fn clipboard_files_are_taken_once(objects: Seq<ClipboardObject>, o: ClipboardObject)
    ensures
        !o.is_file || o.path is None ==> object_paths(objects.push(o)) == object_paths(objects),
        o.is_file && o.path is Some && path::has_path(
            object_paths(objects),
            vstd::utf8::encode_utf8(o.path->0@),
        ) ==> object_paths(objects.push(o)) == object_paths(objects),
        o.is_file && o.path is Some && !path::has_path(
            object_paths(objects),
            vstd::utf8::encode_utf8(o.path->0@),
        ) ==> object_paths(objects.push(o)) == object_paths(objects) + seq![
            vstd::utf8::encode_utf8(o.path->0@),
        ],
        object_paths(Seq::empty()).len() == 0,
        path::distinct_paths(object_paths(objects)),
    decreases objects.len(),
{
    assert(objects.push(o).drop_last() =~= objects);
    if objects.len() > 0 {
        let front = objects.drop_last();
        clipboard_files_are_taken_once(front, o);
        let last = objects.last();
        if last.is_file && last.path is Some {
            path_list::pushed_path_is_in_once(
                object_paths(front),
                vstd::utf8::encode_utf8(last.path->0@),
            );
        }
    }
    if o.is_file && o.path is Some && !path::has_path(
        object_paths(objects),
        vstd::utf8::encode_utf8(o.path->0@),
    ) {
        assert(object_paths(objects.push(o)) =~= object_paths(objects) + seq![
            vstd::utf8::encode_utf8(o.path->0@),
        ]);
    }
}

/// Text on the clipboard holds one path a line.
pub proof fn clipboard_lines_are_paths(line: Seq<char>, rest: Seq<char>)
    requires
        !line.contains('\n'),
        line.len() > 0,
        line.last() != '\r',
    ensures
        line_paths(line) == seq![vstd::utf8::encode_utf8(line)],
        line_paths(line + seq!['\n'] + rest) == seq![vstd::utf8::encode_utf8(line)] + line_paths(
            rest,
        ),
{
    text::lines_end_at_line_feeds(line, rest);
    assert(line_paths(line) =~= seq![vstd::utf8::encode_utf8(line)]);
    assert(line_paths(line + seq!['\n'] + rest) =~= seq![vstd::utf8::encode_utf8(line)]
        + line_paths(rest));
}

/// Paths are put on the clipboard as their texts, in their order.
pub proof fn paths_are_put_as_texts(paths: Seq<Seq<u8>>, i: int)
    requires
        0 <= i < paths.len(),
    ensures
        path_texts(paths).len() == paths.len(),
        path_texts(paths)[i] == text::lossy_text(paths[i]),
{
}

} // verus!
