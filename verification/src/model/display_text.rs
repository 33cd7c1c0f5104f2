//! Text for presentation. It never changes the value that names a file.

use unicode_normalization::UnicodeNormalization;
use vstd::prelude::*;

use crate::path;
use crate::path::FsPath;
use crate::text;
use crate::text::text_lossy;

verus! {

/// What `UnicodeNormalization::nfc` makes of a text: its canonical composition.
pub uninterp spec fn nfc(s: Seq<char>) -> Seq<char>;

/// `UnicodeNormalization::nfc` of the crate unicode-normalization, collected: the text in
/// Normalization Form C, a function of the text alone.
#[verifier::external_body]
fn nfc_text(s: &str) -> (r: String)
    ensures
        r@ == nfc(s@),
{
    s.nfc().collect()
}

/// Normalizes a text for presentation.
pub fn normalize(text: &str) -> (r: String)
    ensures
        r@ == nfc(text@),
{
    nfc_text(text)
}

/// How the bytes of a file system name are shown.
pub open spec fn shown(bytes: Seq<u8>) -> Seq<char> {
    nfc(text::lossy_text(bytes))
}

/// The text of a file system name, for presentation.
pub fn os_str(value: &[u8]) -> (r: String)
    ensures
        r@ == shown(value@),
{
    let t = text_lossy(value);
    normalize(t.as_str())
}

/// How the file name of a path is shown: nothing where it has none.
pub open spec fn shown_name(p: Seq<u8>) -> Seq<char> {
    match path::file_name_of(p) {
        Some(n) => shown(n),
        None => Seq::empty(),
    }
}

/// The file name of a path, for presentation.
pub fn file_name(path: &FsPath) -> (r: String)
    ensures
        r@ == shown_name(path@),
{
    match path.file_name() {
        Some(n) => os_str(n.as_slice()),
        None => {
            let none = String::new();
            assert(none@ =~= Seq::empty());
            none
        },
    }
}

/// A path, for presentation.
pub fn path(value: &FsPath) -> (r: String)
    ensures
        r@ == shown(value@),
{
    os_str(value.as_bytes())
}

/// What is shown of a path is its text in composed form, and of its name that of the last component;
/// nothing where that is no name.
pub proof fn shown_name_is_that_of_the_last_component(base: Seq<u8>, name: Seq<u8>)
    requires
        name.len() > 0,
        !name.contains(path::SLASH),
        name != path::here_component(),
        name != path::up_component(),
    ensures
        shown_name(path::joined(base, name)) == nfc(text::lossy_text(name)),
        shown(base) == nfc(text::lossy_text(base)),
        shown_name(seq![path::SLASH]).len() == 0,
{
    path::parent_undoes_joining(base, name);
    path::root_has_no_name();
}

} // verus!
