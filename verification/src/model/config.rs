//! Preferences, and where they are kept.

use vstd::prelude::*;

use crate::path;
use crate::path::FsPath;

verus! {

/// The look of the window.
#[derive(Clone, Copy, Debug, PartialEq, Eq, Structural)]
pub enum Theme {
    System,
    Light,
    Dark,
}

impl Default for Theme {
    fn default() -> (r: Theme)
        ensures
            r == Theme::System,
    {
        Theme::System
    }
}

/// The terminal that directories are opened in.
#[derive(Clone, Copy, Debug, PartialEq, Eq, Structural)]
pub enum TerminalApp {
    /// The first of iTerm2, Warp and Terminal that can be opened.
    Auto,
    Terminal,
    ITerm2,
    Warp,
    Ghostty,
}

impl Default for TerminalApp {
    fn default() -> (r: TerminalApp)
        ensures
            r == TerminalApp::Auto,
    {
        TerminalApp::Auto
    }
}

/// A path inside another, by its texts.
pub open spec fn inside(base: Seq<u8>, name: Seq<char>) -> Seq<u8> {
    path::joined(base, vstd::utf8::encode_utf8(name))
}

/// The path of a file of the configuration: below `.config/file-explorer` of the home directory,
/// and of `fallback` where there is none.
pub open spec fn config_file(
    home: Option<Seq<char>>,
    fallback: Seq<char>,
    file: Seq<char>,
) -> Seq<u8> {
    let base = match home {
        Some(h) => h,
        None => fallback,
    };
    inside(
        inside(inside(vstd::utf8::encode_utf8(base), ".config"@), "file-explorer"@),
        file,
    )
}

/// The path of a file of the configuration.
pub fn config_path(home: &Option<String>, fallback: &str, file: &str) -> (r: FsPath)
    ensures
        r@ == config_file(crate::text::optional_text(*home), fallback@, file@),
{
    let base = match home {
        Some(h) => FsPath::new(h.as_str()),
        None => FsPath::new(fallback),
    };
    base.join(&FsPath::new(".config")).join(&FsPath::new("file-explorer")).join(
        &FsPath::new(file),
    )
}

/// A file of the configuration lies in the directory `file-explorer` in `.config` of the home
/// directory, or of the fallback where there is no home.
pub proof fn configuration_lies_at_home(home: Seq<char>, fallback: Seq<char>, file: Seq<char>)
    requires
        vstd::utf8::encode_utf8(file).len() > 0,
        !vstd::utf8::encode_utf8(file).contains(path::SLASH),
        vstd::utf8::encode_utf8(file) != path::here_component(),
        vstd::utf8::encode_utf8(file) != path::up_component(),
    ensures
        ({
            let p = config_file(Some(home), fallback, file);
            &&& path::file_name_of(p) == Some(vstd::utf8::encode_utf8(file))
            &&& path::parent_of(p) is Some && path::same_path(
                path::parent_of(p)->0,
                path::joined(
                    path::joined(vstd::utf8::encode_utf8(home), vstd::utf8::encode_utf8(".config"@)),
                    vstd::utf8::encode_utf8("file-explorer"@),
                ),
            )
        }),
        config_file(None, fallback, file) == config_file(Some(fallback), home, file),
{
    path::parent_undoes_joining(
        path::joined(
            path::joined(vstd::utf8::encode_utf8(home), vstd::utf8::encode_utf8(".config"@)),
            vstd::utf8::encode_utf8("file-explorer"@),
        ),
        vstd::utf8::encode_utf8(file),
    );
}

} // verus!
