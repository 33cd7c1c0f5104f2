use file_explorer::model::bookmarks::Bookmarks;
use file_explorer::model::config::config_path;
use file_explorer::model::fs::{
    is_listed, read_dir, sort_entries, DirRecord, EntryMeta, FileEntry, FileKind, SortColumn,
    SortOrder, Timestamp,
};
use file_explorer::model::global_tags::{
    parse_search_output, search_by_tag, tag_query, GlobalTag, GlobalTags,
};
use file_explorer::model::property_list::readable;
use file_explorer::model::search::{
    is_searched, match_text, shown_results, SearchQuery, SEARCH_DEPTH, SEARCH_RESULTS,
};
use file_explorer::model::tags::{
    parse_tag_string, parse_tag_strings, read_tags, tag_string, write_tags, Tag, TagColor,
    TagWrite,
};
use file_explorer::model::themes::{find_theme, CustomTheme, ThemeColor, ThemeColors};
use file_explorer::path::FsPath;

fn p(name: &str) -> FsPath {
    FsPath::new(name)
}

fn entry(name: &str, kind: FileKind, size: Option<u64>, secs: Option<i64>) -> FileEntry {
    FileEntry {
        name: name.to_string(),
        path: p("/d").join(&p(name)),
        kind,
        size,
        modified: secs.map(|secs| Timestamp { secs, nanos: 0 }),
        tags: Vec::new(),
    }
}

fn sized(size: Option<u64>) -> String {
    entry("f", FileKind::File, size, None).size_display()
}

#[test]
fn sizes_are_shown_in_their_unit() {
    assert_eq!(sized(None), "—");
    assert_eq!(sized(Some(0)), "—");
    assert_eq!(sized(Some(1)), "1 B");
    assert_eq!(sized(Some(1023)), "1023 B");
    assert_eq!(sized(Some(1024)), "1.0 KB");
    assert_eq!(sized(Some(1280)), "1.2 KB");
    assert_eq!(sized(Some(1792)), "1.8 KB");
    assert_eq!(sized(Some(1_048_575)), "1024.0 KB");
    assert_eq!(sized(Some(1_048_576)), "1.0 MB");
    assert_eq!(sized(Some(1_073_741_824)), "1.0 GB");
}

#[test]
fn sizes_are_rounded_as_floats_are_printed() {
    let mut b: u64 = 1024;
    let mut seed: u64 = 12345;
    for _ in 0..20_000 {
        seed = seed.wrapping_mul(6_364_136_223_846_793_005).wrapping_add(1_442_695_040_888_963_407);
        b = 1024 + (seed >> 20) % 5_000_000_000_000;
        let text = if b < 1024 * 1024 {
            format!("{:.1} KB", b as f64 / 1024.0)
        } else if b < 1024 * 1024 * 1024 {
            format!("{:.1} MB", b as f64 / (1024.0 * 1024.0))
        } else {
            format!("{:.1} GB", b as f64 / (1024.0 * 1024.0 * 1024.0))
        };
        assert_eq!(sized(Some(b)), text);
    }
    assert!(b > 1024);
    for b in 1024u64..200_000 {
        assert_eq!(sized(Some(b)), format!("{:.1} KB", b as f64 / 1024.0));
    }
}

#[test]
fn times_are_shown_to_the_minute() {
    let shown = |secs| entry("f", FileKind::File, None, secs).modified_display();
    assert_eq!(shown(None), "—");
    assert_eq!(shown(Some(0)), "1970-01-01 00:00");
    assert_eq!(shown(Some(-10)), "1970-01-01 00:00");
    assert_eq!(shown(Some(86_400 * 395 + 3600 * 5 + 60 * 7 + 9)), "1971-02-01 05:07");
}

fn names(entries: &Vec<FileEntry>) -> Vec<&str> {
    entries.iter().map(|e| e.name.as_str()).collect()
}

#[test]
fn directories_stay_in_front_in_every_order() {
    let mut list = vec![
        entry("b", FileKind::File, Some(1), Some(3)),
        entry("Z", FileKind::Directory, None, Some(1)),
        entry("A", FileKind::File, Some(3), None),
        entry("link", FileKind::Symlink, None, Some(2)),
        entry("y", FileKind::Directory, None, None),
    ];
    sort_entries(&mut list, SortColumn::Name, SortOrder::Ascending);
    assert_eq!(names(&list), vec!["y", "Z", "A", "b", "link"]);
    sort_entries(&mut list, SortColumn::Name, SortOrder::Descending);
    assert_eq!(names(&list), vec!["Z", "y", "link", "b", "A"]);
    sort_entries(&mut list, SortColumn::Size, SortOrder::Ascending);
    assert_eq!(names(&list), vec!["Z", "y", "link", "b", "A"]);
    sort_entries(&mut list, SortColumn::Kind, SortOrder::Ascending);
    assert_eq!(names(&list), vec!["Z", "y", "b", "A", "link"]);
    sort_entries(&mut list, SortColumn::Modified, SortOrder::Ascending);
    assert_eq!(names(&list), vec!["y", "Z", "A", "link", "b"]);
}

#[test]
fn equal_entries_keep_their_order() {
    let mut list = vec![
        entry("b", FileKind::File, Some(5), None),
        entry("a", FileKind::File, Some(5), None),
        entry("c", FileKind::File, Some(5), None),
    ];
    sort_entries(&mut list, SortColumn::Size, SortOrder::Descending);
    assert_eq!(names(&list), vec!["b", "a", "c"]);
}

fn meta(is_dir: bool, is_symlink: bool) -> EntryMeta {
    EntryMeta {
        is_dir,
        is_symlink,
        is_file: !is_dir && !is_symlink,
        len: 9,
        modified: None,
    }
}

#[test]
fn a_directory_is_read_record_by_record() {
    let record = |name: &str, meta: Option<EntryMeta>| DirRecord {
        name: name.as_bytes().to_vec(),
        path: p("/d").join(&p(name)),
        meta,
        tag_data: Some(b"not a list".to_vec()),
    };
    let records = vec![
        record("dir", Some(meta(true, false))),
        record(".hidden", Some(meta(false, false))),
        record("link", Some(meta(false, true))),
        record("file", Some(meta(false, false))),
        record("unknown", None),
    ];
    let shown = read_dir(&records, false);
    assert_eq!(names(&shown), vec!["dir", "link", "file", "unknown"]);
    let kinds: Vec<FileKind> = shown.iter().map(|e| e.kind).collect();
    assert_eq!(
        kinds,
        vec![FileKind::Directory, FileKind::Symlink, FileKind::File, FileKind::File]
    );
    let sizes: Vec<Option<u64>> = shown.iter().map(|e| e.size).collect();
    assert_eq!(sizes, vec![None, None, Some(9), None]);
    assert!(shown[0].tags.is_empty());
    assert_eq!(read_dir(&records, true).len(), 5);
    assert!(!is_listed(b".x", false) && is_listed(b".x", true) && is_listed(b"x", false));
    assert_eq!(FileKind::Directory.label(), "Folder");
}

fn tag(name: &str, color: TagColor) -> Tag {
    Tag {
        name: name.to_string(),
        color,
    }
}

#[test]
fn tags_come_back_as_they_were_written() {
    let tags = vec![
        tag("Red", TagColor::Red),
        tag("한글", TagColor::NoColor),
        tag("Work", TagColor::Orange),
    ];
    let bytes = match write_tags(&tags) {
        TagWrite::Store(bytes) => bytes,
        _ => panic!("there are tags to store"),
    };
    assert_eq!(&bytes[..6], b"bplist");
    let read = read_tags(&Some(bytes));
    assert_eq!(read.len(), 3);
    for (a, b) in read.iter().zip(&tags) {
        assert_eq!((&a.name, a.color), (&b.name, b.color));
    }
    assert!(matches!(write_tags(&Vec::new()), TagWrite::Remove));
    assert!(read_tags(&None).is_empty());
    assert!(read_tags(&Some(b"nothing of the kind".to_vec())).is_empty());
}

/// A binary property list: an array of these objects, which it refers to in their order.
fn binary_list(objects: &[Vec<u8>]) -> Vec<u8> {
    let mut bytes = b"bplist00".to_vec();
    let mut places = vec![bytes.len() as u8];
    bytes.push(0xA0 + objects.len() as u8);
    bytes.extend((1..=objects.len()).map(|k| k as u8));
    for object in objects {
        places.push(bytes.len() as u8);
        bytes.extend(object);
    }
    let table = bytes.len() as u64;
    bytes.extend(&places);
    bytes.extend([0, 0, 0, 0, 0, 0, 1, 1]);
    bytes.extend((places.len() as u64).to_be_bytes());
    bytes.extend(0u64.to_be_bytes());
    bytes.extend(table.to_be_bytes());
    bytes
}

fn stored_date(seconds: f64) -> Vec<u8> {
    let mut object = vec![0x33];
    object.extend(seconds.to_be_bytes());
    object
}

fn stored_text(text: &str) -> Vec<u8> {
    let units: Vec<u16> = text.encode_utf16().collect();
    let mut object = vec![0x60 + units.len() as u8];
    object.extend(units.iter().flat_map(|unit| unit.to_be_bytes()));
    object
}

fn names_in(bytes: Vec<u8>) -> Vec<String> {
    read_tags(&Some(bytes)).into_iter().map(|tag| tag.name).collect()
}

#[test]
fn dates_in_a_binary_list_are_read_as_texts_where_they_can_be() {
    assert_eq!(
        names_in(binary_list(&[stored_text("a"), stored_date(0.0)])),
        ["a", "2001-01-01T00:00:00Z"]
    );
    assert_eq!(
        names_in(binary_list(&[stored_date(-63_145_526_400.0)])),
        ["0000-01-01T00:00:00Z"]
    );
    assert_eq!(
        names_in(binary_list(&[stored_date(252_423_993_599.0)])),
        ["9999-12-31T23:59:59Z"]
    );
    for seconds in [-63_145_526_401.0, -1e11, 252_423_993_600.0, 1e300, f64::NAN, f64::NEG_INFINITY] {
        let bytes = binary_list(&[stored_text("a"), stored_date(seconds)]);
        assert!(!readable(&bytes));
        assert!(names_in(bytes).is_empty());
    }
    // An object that nothing refers to is not read.
    let mut bytes = binary_list(&[stored_text("a"), stored_text("b"), stored_date(-1e11)]);
    bytes[8] = 0xA2;
    bytes[11] = 2;
    assert!(readable(&bytes));
    assert_eq!(names_in(bytes), ["a", "b"]);
    // The bytes of this text look like a date before the year 0, but no object starts there.
    let text = stored_text("a3숲 속에서");
    assert!(text.windows(3).any(|bytes| bytes == [0x33, 0xC2, 0x32]));
    assert_eq!(names_in(binary_list(&[text])), ["a3숲 속에서"]);
}

#[test]
fn dates_in_a_written_list_are_read_as_texts_where_they_can_be() {
    let list = |element: &str| {
        format!("<plist><array><string>a:date b</string>{element}</array></plist>").into_bytes()
    };
    assert_eq!(
        names_in(list("<date>2020-02-03T04:05:06Z</date>")),
        ["a:date b", "2020-02-03T04:05:06Z"]
    );
    assert_eq!(
        names_in(list("<date>9999-12-31T23:59:59Z</date>")),
        ["a:date b", "9999-12-31T23:59:59Z"]
    );
    assert_eq!(
        names_in(list("<x:date>0001-01-01T00:00:00+01:00</x:date>")),
        ["a:date b", "0000-12-31T23:00:00Z"]
    );
    for element in [
        "<date>0000-01-01T00:00:00+01:00</date>",
        "<date>9999-12-31T23:59:59-01:00</date>",
        "<x:date>9999-12-31T23:59:59-01:00</x:date>",
        "<x\">\":date>9999-12-31T23:59:59-01:00</x\">\":date>",
        "<date a=''>9999-12-31T23:59:59-01:00</date>",
        "<date>&#57;999-12-31T23:59:59-01:00</date>",
        "<!-- <date> --><date >9999-12-31T00:30:00.5-23:45</date>",
        "<date>9999-12-31T<![CDATA[</x>]]>23:59:59<!-- </date> -->-01:00</date>",
        "<date>9999-12-31T<!DOCTYPE x SYSTEM '>[' [<!-- ]> --> ]>23:59:59-01:00</date>",
    ] {
        assert!(!readable(&list(element)));
        assert!(names_in(list(element)).is_empty());
    }
    for (element, text) in [
        ("<!-- <date > -->", None),
        ("<!-- <date>9999-12-31T23:59:59-01:00</date> -->", None),
        ("<![CDATA[<date>0000-01-01T00:00:00+01:00</date>]]>", None),
        ("<?x <date ?>", None),
        ("<date >2020-02-03T04:05:06Z</date>", Some("2020-02-03T04:05:06Z")),
        ("<date a='>'>2020-02-03T04:05:06Z</date>", Some("2020-02-03T04:05:06Z")),
        ("<date>9999-12-31T23:59:59.5Z</date>", Some("9999-12-31T23:59:59.5Z")),
        ("<date>9999-12-31T22:59:59.5-01:00</date>", Some("9999-12-31T23:59:59.5Z")),
        ("<date>0000-01-01T01:00:00+01:00</date>", Some("0000-01-01T00:00:00Z")),
        ("<date>&#50;020-02-03<!-- </x> -->T04:05:06&#90;</date>", Some("2020-02-03T04:05:06Z")),
        ("<!-- <date > --><date>2020-02-03T04:05:06Z</date>", Some("2020-02-03T04:05:06Z")),
        ("<date>2020-02-03<!DOCTYPE x>T04:05:06Z</date>", Some("2020-02-03T04:05:06Z")),
        ("<date>2020-02-03<!doctype x \"</a>\">T04:05:06Z</date>", Some("2020-02-03T04:05:06Z")),
        (
            "<date>2020-02-03<!DOCTYPE x [<!ENTITY a \"]></b>\"> %p; ] >T04:05:06Z</date>",
            Some("2020-02-03T04:05:06Z"),
        ),
        (
            "<date>2020-02-03<!DOCTYPE x [<?p ]> ?><!-- ' ]> --><!ATTLIST a b CDATA '>]>'>\
            <!NOTATION n SYSTEM '>'><!ELEMENT a ANY><!OTHER ']>]>T04:05:06Z</date>",
            Some("2020-02-03T04:05:06Z"),
        ),
        ("<!DOCTYPE x [<!ENTITY a '<date>'>]>", None),
    ] {
        assert!(readable(&list(element)));
        let names: Vec<String> = ["a:date b"]
            .into_iter()
            .chain(text)
            .map(str::to_string)
            .collect();
        assert_eq!(names_in(list(element)), names, "{element}");
    }
    assert!(names_in(list("<date><!-- --> 2020</date>")).is_empty());
    assert!(names_in(list("<date>")).is_empty());
    assert!(names_in(list("<date>9999-12-31T23:59:59-01:00")).is_empty());
    assert!(names_in(list("<date/>")).is_empty());
    assert!(names_in(list("<date>2020-02-03<!DOCTYPE x [>T04:05:06Z</date>")).is_empty());
    assert!(names_in(list("<date>2020-02-03<!Dx>T04:05:06Z</date>")).is_empty());
    assert_eq!(names_in(b"(\"due<date\", b)".to_vec()), ["due<date", "b"]);
    assert_eq!(names_in(b"(\"due<date \", b)".to_vec()), ["due<date ", "b"]);
    assert!(names_in(b"<plist><string>a</string></plist>".to_vec()).is_empty());
}

#[test]
fn tag_strings_carry_their_color() {
    let color = |text: &str| parse_tag_string(text).unwrap().color;
    assert_eq!(tag_string(&tag("A", TagColor::Gray)), "A\n1");
    assert_eq!(tag_string(&tag("A", TagColor::NoColor)), "A");
    assert_eq!(color("A\n7"), TagColor::Orange);
    assert_eq!(color("A\n+2"), TagColor::Green);
    assert_eq!(color("A\n300"), TagColor::NoColor);
    assert_eq!(color("A\n2\n3"), TagColor::NoColor);
    assert_eq!(color("A\n9"), TagColor::NoColor);
    assert!(parse_tag_string("").is_none());
    assert!(parse_tag_string("\n3").is_none());
    let read = parse_tag_strings(&vec!["".to_string(), "B\n4".to_string()]);
    assert_eq!(read.len(), 1);
    assert_eq!(TagColor::from_number(TagColor::Purple.to_number()), TagColor::Purple);
    assert_eq!(TagColor::Purple.rgb(), (175, 82, 222));
    assert_eq!(TagColor::NoColor.rgb(), TagColor::Gray.rgb());
}

#[test]
fn known_tags_have_each_name_once() {
    let mut tags = GlobalTags::seeded();
    assert_eq!(tags.items.len(), 7);
    assert_eq!(tags.items[0].name, "Red");
    assert_eq!(tags.items[0].rgb(), (255, 59, 48));
    assert!(!tags.add("Blue".to_string(), 1));
    assert!(tags.add("Work".to_string(), 0));
    assert_eq!(tags.items[7].rgb(), (142, 142, 147));
    assert!(tags.remove(0));
    assert!(!tags.remove(7));
    assert!(tags.rename(0, "Amber".to_string()));
    assert!(!tags.rename(9, "x".to_string()));
    assert!(tags.set_color(0, 3));
    assert!(!tags.set_color(9, 3));
    assert_eq!((tags.items[0].name.as_str(), tags.items[0].color), ("Amber", 3));
    let gray = GlobalTag {
        name: "x".to_string(),
        color: 200,
    };
    assert_eq!(gray.rgb(), (142, 142, 147));
}

#[test]
fn found_paths_are_in_the_order_of_their_names() {
    assert_eq!(tag_query("it's"), "kMDItemUserTags == 'it\\'s'");
    assert_eq!(
        parse_search_output("/z/b\n\n/y/a\r\n/\n/x/b\n"),
        vec![p("/"), p("/y/a"), p("/z/b"), p("/x/b")]
    );
    assert!(search_by_tag(false, b"/a\n").is_empty());
    assert_eq!(search_by_tag(true, b"/a\n/\xff\n").len(), 2);
}

#[test]
fn a_place_is_bookmarked_once() {
    let mut marks = Bookmarks::default();
    assert!(marks.add(p("/home/\u{1112}\u{1161}\u{11ab}")));
    assert!(!marks.add(p("/home//\u{1112}\u{1161}\u{11ab}/")));
    assert!(marks.add(p("/")));
    assert_eq!(marks.items[0].name, "한");
    assert_eq!(marks.items[1].name, "/");
    assert!(!marks.remove(2));
    assert!(marks.remove(0));
    assert_eq!(marks.items.len(), 1);
    assert_eq!(
        config_path(&None, ".", "bookmarks.json"),
        p("./.config/file-explorer/bookmarks.json")
    );
    assert_eq!(
        config_path(&Some("/home/me".to_string()), ".", "config.json"),
        p("/home/me/.config/file-explorer/config.json")
    );
}

#[test]
fn a_query_is_handed_on_when_it_changes() {
    let mut query = SearchQuery::new();
    assert!(query.set_query("").is_none());
    assert_eq!(query.set_query("\u{1112}\u{1161}\u{11ab}"), Some("한".to_string()));
    assert!(query.set_query("한").is_none());
    assert!(query.set_pattern("한".to_string()).is_none());
    assert_eq!(query.set_pattern("x".to_string()), Some("x".to_string()));
    assert_eq!(match_text(&p("/r"), &p("/r/src/fs.rs")), "src/fs.rs");
    assert_eq!(match_text(&p("/r"), &p("/q/fs.rs")), "/q/fs.rs");
    assert_eq!(shown_results(500, SEARCH_RESULTS), 200);
    assert_eq!(shown_results(5, SEARCH_RESULTS), 5);
    assert!(!is_searched(0) && is_searched(1) && is_searched(SEARCH_DEPTH));
}

#[test]
fn a_theme_is_found_by_its_id() {
    let color = ThemeColor { r: 1, g: 2, b: 3 };
    let theme = |id: &str| CustomTheme {
        id: id.to_string(),
        name: "name".to_string(),
        description: "text".to_string(),
        colors: ThemeColors {
            background: color,
            primary_text: color,
            secondary_text: color,
            accent: color,
        },
    };
    let themes = vec![theme("a"), theme("b")];
    assert_eq!(find_theme(&themes, &Some("b".to_string())).unwrap().id, "b");
    assert!(find_theme(&themes, &Some("c".to_string())).is_none());
    assert!(find_theme(&themes, &None).is_none());
}
