use file_explorer::model::display_text::{file_name, normalize, os_str, path};
use file_explorer::path::FsPath;

#[test]
fn nfc_korean_is_unchanged() {
    let text = "한글 파일.txt";
    assert_eq!(normalize(text), text);
}

#[test]
fn nfd_korean_normalizes_to_the_same_label() {
    let nfd = "\u{1112}\u{1161}\u{11ab}\u{1100}\u{1173}\u{11af}";
    assert_eq!(normalize(nfd), "한글");
    assert_eq!(normalize(nfd), normalize("한글"));
}

#[test]
fn mixed_korean_and_latin_text_is_preserved() {
    let text = "release-한국어-v2.txt";
    assert_eq!(normalize(text), text);
}

#[test]
fn combining_accents_normalize_without_panicking() {
    assert_eq!(normalize("cafe\u{301}.txt"), "café.txt");
}

#[test]
fn deriving_display_text_does_not_change_the_path() {
    let raw = FsPath::new("/tmp/\u{1112}\u{1161}\u{11ab}.txt");
    let original = raw.clone();

    assert_eq!(path(&raw), "/tmp/한.txt");
    assert_eq!(raw, original);
}

#[test]
fn bytes_that_are_no_text_are_shown_with_a_mark() {
    assert_eq!(os_str(&[97, 255, 98]), "a\u{fffd}b");
}

#[test]
fn the_name_of_the_root_is_empty() {
    assert_eq!(file_name(&FsPath::new("/")), "");
    assert_eq!(file_name(&FsPath::new("/a/b.txt")), "b.txt");
}
