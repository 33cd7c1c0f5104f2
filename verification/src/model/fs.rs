//! Directory entries: how they are listed, shown and sorted.

use vstd::prelude::*;

use crate::model::global_tags::bytes_key;
use crate::model::tags;
use crate::model::tags::{read_tags, Tag, TagView};
use crate::path;
use crate::path::FsPath;
use crate::sort;
use crate::sort::{sort_by_items, SortItem};
use crate::text;
use crate::text::{chars_of, push_decimal, push_padded, text_lossy};

verus! {

/// What an entry is.
#[derive(Clone, Copy, Debug, PartialEq, Eq, Structural)]
pub enum FileKind {
    Directory,
    File,
    Symlink,
}

impl FileKind {
    /// The name of the kind.
    pub open spec fn text(self) -> Seq<char> {
        match self {
            FileKind::Directory => "Folder"@,
            FileKind::File => "File"@,
            FileKind::Symlink => "Symlink"@,
        }
    }

    /// The name of the kind.
    pub fn label(self) -> (r: &'static str)
        ensures
            r@ == self.text(),
    {
        match self {
            FileKind::Directory => "Folder",
            FileKind::File => "File",
            FileKind::Symlink => "Symlink",
        }
    }
}

/// A moment: whole seconds since the epoch, and nanoseconds after them.
#[derive(Clone, Copy, Debug, PartialEq, Eq, Structural)]
pub struct Timestamp {
    pub secs: i64,
    pub nanos: u32,
}

/// An entry of a directory.
#[derive(Debug)]
pub struct FileEntry {
    pub name: String,
    pub path: FsPath,
    pub kind: FileKind,
    pub size: Option<u64>,
    pub modified: Option<Timestamp>,
    pub tags: Vec<Tag>,
}

/// An entry by its parts.
#[verifier::ext_equal]
pub struct EntryView {
    pub name: Seq<char>,
    pub path: Seq<u8>,
    pub kind: FileKind,
    pub size: Option<u64>,
    pub modified: Option<Timestamp>,
    pub tags: Seq<TagView>,
}

impl View for FileEntry {
    type V = EntryView;

    open spec fn view(&self) -> EntryView {
        EntryView {
            name: self.name@,
            path: self.path@,
            kind: self.kind,
            size: self.size,
            modified: self.modified,
            tags: tags::tag_views(self.tags@),
        }
    }
}

/// Entries by their parts.
pub open spec fn entry_views(entries: Seq<FileEntry>) -> Seq<EntryView> {
    entries.map_values(|e: FileEntry| e@)
}

/// What entries are sorted by.
#[derive(Clone, Copy, Debug, PartialEq, Eq, Structural)]
pub enum SortColumn {
    Name,
    Size,
    Kind,
    Modified,
}

/// Which way entries are sorted.
#[derive(Clone, Copy, Debug, PartialEq, Eq, Structural)]
pub enum SortOrder {
    Ascending,
    Descending,
}

/// A quotient rounded to the nearest number, and to the even one of two as near.
pub open spec fn nearest_even(a: int, d: int) -> int {
    let q = a / d;
    let r = a % d;
    if 2 * r > d || (2 * r == d && q % 2 == 1) {
        q + 1
    } else {
        q
    }
}

/// The distance of neighbouring numbers of 53 significant bits, around `b`.
pub open spec fn double_step(b: int, m: int) -> int
    decreases 2 * b - m,
{
    if m <= 0 || m > b || b / m < 0x20_0000_0000_0000 {
        m
    } else {
        double_step(b, 2 * m)
    }
}

/// The number of 53 significant bits that is nearest to `b`.
pub open spec fn as_double(b: int) -> int {
    let m = double_step(b, 1);
    nearest_even(b, m) * m
}

/// A size in tenths of a unit.
pub open spec fn tenths_of(b: int, unit: int) -> int {
    nearest_even(as_double(b) * 10, unit)
}

/// A number of tenths with its decimal point.
pub open spec fn point_text(tenths: int) -> Seq<char> {
    text::decimal((tenths / 10) as nat) + "."@ + text::decimal((tenths % 10) as nat)
}

/// How a size is shown.
pub open spec fn size_text(size: Option<u64>) -> Seq<char> {
    match size {
        None => "—"@,
        Some(b) => if b == 0 {
            "—"@
        } else if b < 0x400 {
            text::decimal(b as nat) + " B"@
        } else if b < 0x10_0000 {
            point_text(tenths_of(b as int, 0x400)) + " KB"@
        } else if b < 0x4000_0000 {
            point_text(tenths_of(b as int, 0x10_0000)) + " MB"@
        } else {
            point_text(tenths_of(b as int, 0x4000_0000)) + " GB"@
        },
    }
}

/// How a moment is shown: year, month, day, hour and minute, in years of 365 and months of 30
/// days. A moment before the epoch shows as the epoch.
pub open spec fn modified_text(modified: Option<Timestamp>) -> Seq<char> {
    match modified {
        None => "—"@,
        Some(t) => {
            let secs = if t.secs >= 0 {
                t.secs as int
            } else {
                0
            };
            let days = secs / 86400;
            text::padded((1970 + days / 365) as nat, 4) + "-"@ + text::padded(
                ((days % 365) / 30 + 1) as nat,
                2,
            ) + "-"@ + text::padded(((days % 365) % 30 + 1) as nat, 2) + " "@ + text::padded(
                ((secs / 3600) % 24) as nat,
                2,
            ) + ":"@ + text::padded(((secs / 60) % 60) as nat, 2)
        },
    }
}

/// A quotient rounded to the nearest number, and to the even one of two as near.
fn round_even(a: u128, d: u128) -> (r: u128)
    requires
        0 < d <= 0x1_0000_0000_0000_0000,
        a <= 0x100_0000_0000_0000_0000_0000,
    ensures
        r == nearest_even(a as int, d as int),
{
    let q: u128 = a / d;
    let rest: u128 = a % d;
    proof {
        assert(q <= a) by (nonlinear_arith)
            requires
                q == a / d,
                d > 0,
        ;
    }
    if 2 * rest > d || (2 * rest == d && q % 2 == 1) {
        q + 1
    } else {
        q
    }
}

/// The number of 53 significant bits that is nearest to a size.
fn round_to_double(b: u64) -> (r: u128)
    ensures
        r == as_double(b as int),
        r <= 0x2_0000_0000_0000_0000,
{
    let big: u128 = b as u128;
    let mut m: u128 = 1;
    while m <= big && big / m >= 0x20_0000_0000_0000
        invariant
            big == b,
            1 <= m <= 0x1_0000_0000_0000_0000,
            double_step(b as int, 1) == double_step(b as int, m as int),
            m <= 2 * big || m == 1,
        decreases 0x2_0000_0000_0000_0000 - m,
    {
        proof {
            assert(m <= 0x1000) by (nonlinear_arith)
                requires
                    big / m >= 0x20_0000_0000_0000,
                    big <= 0xffff_ffff_ffff_ffff,
                    m >= 1,
            ;
        }
        m = m * 2;
    }
    let q = round_even(big, m);
    proof {
        let a = big as int;
        let d = m as int;
        assert(q <= a / d + 1);
        assert((a / d) * d <= a) by (nonlinear_arith)
            requires
                d > 0,
                a >= 0,
        ;
        assert(q * d <= (a / d) * d + d) by (nonlinear_arith)
            requires
                q <= a / d + 1,
                d > 0,
        ;
        assert(d <= 2 * a || d == 1);
        assert(q * d <= 0x4_0000_0000_0000_0000);
        if d > 1 {
            lemma_step_small(b as int, m as int);
        }
    }
    q * m
}

proof fn lemma_step_small(b: int, m: int)
    requires
        0 <= b <= 0xffff_ffff_ffff_ffff,
        1 < m,
        m == double_step(b, 1),
    ensures
        m <= 0x2000,
{
    lemma_step_bound(b, 1);
}

proof fn lemma_step_bound(b: int, m: int)
    requires
        0 <= b <= 0xffff_ffff_ffff_ffff,
        1 <= m <= 0x1000,
    ensures
        double_step(b, m) <= 0x2000,
    decreases 0x2000 - m,
{
    if !(m > b || b / m < 0x20_0000_0000_0000) {
        assert(m <= 0x800) by (nonlinear_arith)
            requires
                b / m >= 0x20_0000_0000_0000,
                b <= 0xffff_ffff_ffff_ffff,
                m >= 1,
        ;
        lemma_step_bound(b, 2 * m);
    }
}

/// A size in a unit, with one decimal.
fn unit_text(b: u64, unit: u64, name: &str) -> (r: String)
    requires
        0x400 <= unit <= 0x4000_0000,
    ensures
        r@ == point_text(tenths_of(b as int, unit as int)) + name@,
{
    let d = round_to_double(b);
    let tenths = round_even(d * 10, unit as u128);
    proof {
        let a = (d * 10) as int;
        let u = unit as int;
        assert(tenths <= a / u + 1);
        assert(a / u <= 0xffff_ffff_ffff_ffff) by (nonlinear_arith)
            requires
                0 <= a <= 0x14_0000_0000_0000_0000,
                u >= 0x400,
        ;
    }
    let mut out: String = String::new();
    push_decimal(&mut out, (tenths / 10) as u64);
    out.push_str(".");
    push_decimal(&mut out, (tenths % 10) as u64);
    out.push_str(name);
    assert(out@ =~= point_text(tenths_of(b as int, unit as int)) + name@);
    out
}

impl FileEntry {
    /// How the size is shown.
    pub fn size_display(&self) -> (r: String)
        ensures
            r@ == size_text(self.size),
    {
        match self.size {
            None => "—".to_owned(),
            Some(b) => if b == 0 {
                "—".to_owned()
            } else if b < 0x400 {
                let mut out: String = String::new();
                push_decimal(&mut out, b);
                out.push_str(" B");
                assert(out@ =~= text::decimal(b as nat) + " B"@);
                out
            } else if b < 0x10_0000 {
                unit_text(b, 0x400, " KB")
            } else if b < 0x4000_0000 {
                unit_text(b, 0x10_0000, " MB")
            } else {
                unit_text(b, 0x4000_0000, " GB")
            },
        }
    }

    /// How the time of the last change is shown.
    pub fn modified_display(&self) -> (r: String)
        ensures
            r@ == modified_text(self.modified),
    {
        match self.modified {
            None => "—".to_owned(),
            Some(t) => {
                let secs: u64 = if t.secs >= 0 {
                    t.secs as u64
                } else {
                    0
                };
                let days: u64 = secs / 86400;
                let day_of_year: u64 = days % 365;
                let mut out: String = String::new();
                push_padded(&mut out, 1970 + days / 365, 4);
                out.push_str("-");
                push_padded(&mut out, day_of_year / 30 + 1, 2);
                out.push_str("-");
                push_padded(&mut out, day_of_year % 30 + 1, 2);
                out.push_str(" ");
                push_padded(&mut out, (secs / 3600) % 24, 2);
                out.push_str(":");
                push_padded(&mut out, (secs / 60) % 60, 2);
                assert(out@ =~= modified_text(self.modified));
                out
            },
        }
    }

    /// A copy of the entry.
    pub fn copy(&self) -> (r: FileEntry)
        ensures
            r@ == self@,
    {
        let mut tags: Vec<Tag> = Vec::new();
        let mut i: usize = 0;
        assert(tags::tag_views(tags@) =~= tags::tag_views(self.tags@).take(0));
        while i < self.tags.len()
            invariant
                i <= self.tags@.len(),
                tags::tag_views(tags@) == tags::tag_views(self.tags@).take(i as int),
            decreases self.tags@.len() - i,
        {
            let ghost before = tags::tag_views(tags@);
            let t = self.tags[i].clone();
            let ghost v = t@;
            tags.push(t);
            i += 1;
            assert(tags::tag_views(tags@) =~= before.push(v));
            assert(tags::tag_views(tags@) =~= tags::tag_views(self.tags@).take(i as int));
        }
        assert(tags::tag_views(tags@) =~= tags::tag_views(self.tags@));
        FileEntry {
            name: self.name.clone(),
            path: self.path.clone(),
            kind: self.kind,
            size: self.size,
            modified: self.modified,
            tags,
        }
    }
}

/// What the file system says of an entry.
#[derive(Clone, Copy, Debug)]
pub struct EntryMeta {
    pub is_dir: bool,
    pub is_symlink: bool,
    pub is_file: bool,
    pub len: u64,
    pub modified: Option<Timestamp>,
}

/// An entry of a directory as it was found.
#[derive(Debug)]
pub struct DirRecord {
    pub name: Vec<u8>,
    pub path: FsPath,
    pub meta: Option<EntryMeta>,
    /// The bytes of the tags that are stored with it.
    pub tag_data: Option<Vec<u8>>,
}

/// Whether an entry is listed: one whose name starts with a dot only where hidden ones are.
pub open spec fn is_shown(name: Seq<u8>, show_hidden: bool) -> bool {
    let t = text::lossy_text(name);
    show_hidden || !(t.len() > 0 && t[0] == '.')
}

/// The entry that a record stands for.
pub open spec fn entry_of(r: DirRecord) -> EntryView {
    EntryView {
        name: text::lossy_text(r.name@),
        path: r.path@,
        kind: match r.meta {
            Some(m) => if m.is_dir {
                FileKind::Directory
            } else if m.is_symlink {
                FileKind::Symlink
            } else {
                FileKind::File
            },
            None => FileKind::File,
        },
        size: match r.meta {
            Some(m) => if m.is_file {
                Some(m.len)
            } else {
                None
            },
            None => None,
        },
        modified: match r.meta {
            Some(m) => m.modified,
            None => None,
        },
        tags: tags::tags_in(
            match r.tag_data {
                Some(d) => Some(d@),
                None => None,
            },
        ),
    }
}

/// The entries of the records that are listed, in their order.
pub open spec fn listed(records: Seq<DirRecord>, show_hidden: bool) -> Seq<EntryView>
    decreases records.len(),
{
    if records.len() == 0 {
        Seq::empty()
    } else {
        let rest = listed(records.drop_last(), show_hidden);
        if is_shown(records.last().name@, show_hidden) {
            rest.push(entry_of(records.last()))
        } else {
            rest
        }
    }
}

/// Whether an entry of this name is listed.
pub fn is_listed(name: &[u8], show_hidden: bool) -> (r: bool)
    ensures
        r == is_shown(name@, show_hidden),
{
    let t = text_lossy(name);
    let chars = chars_of(t.as_str());
    show_hidden || !(chars.len() > 0 && chars[0] == '.')
}

/// Lists the entries of a directory.
pub fn read_dir(records: &Vec<DirRecord>, show_hidden: bool) -> (r: Vec<FileEntry>)
    ensures
        entry_views(r@) == listed(records@, show_hidden),
{
    let mut out: Vec<FileEntry> = Vec::new();
    let mut i: usize = 0;
    assert(entry_views(out@) =~= listed(records@.take(0), show_hidden));
    while i < records.len()
        invariant
            i <= records@.len(),
            entry_views(out@) == listed(records@.take(i as int), show_hidden),
        decreases records@.len() - i,
    {
        proof {
            assert(records@.take(i + 1).drop_last() =~= records@.take(i as int));
            assert(records@.take(i + 1).last() == records@[i as int]);
        }
        let record = &records[i];
        i += 1;
        if !is_listed(record.name.as_slice(), show_hidden) {
            continue ;
        }
        let kind = match record.meta {
            Some(m) => if m.is_dir {
                FileKind::Directory
            } else if m.is_symlink {
                FileKind::Symlink
            } else {
                FileKind::File
            },
            None => FileKind::File,
        };
        let size = match record.meta {
            Some(m) => if m.is_file {
                Some(m.len)
            } else {
                None
            },
            None => None,
        };
        let modified = match record.meta {
            Some(m) => m.modified,
            None => None,
        };
        let entry = FileEntry {
            name: text_lossy(record.name.as_slice()),
            path: record.path.clone(),
            kind,
            size,
            modified,
            tags: read_tags(&record.tag_data),
        };
        let ghost before = entry_views(out@);
        let ghost v = entry@;
        assert(v =~= entry_of(*record));
        out.push(entry);
        assert(entry_views(out@) =~= before.push(v));
    }
    assert(records@.take(i as int) =~= records@);
    out
}

/// Bytes as numbers.
pub open spec fn byte_numbers(b: Seq<u8>) -> Seq<i128> {
    b.map_values(|x: u8| x as i128)
}

/// What an entry is sorted by in a column: the name without regard to case, the name of the
/// kind, the size (0 where it has none), or the time of the last change (none first).
pub open spec fn sort_key(e: EntryView, col: SortColumn) -> Seq<i128> {
    match col {
        SortColumn::Name => byte_numbers(vstd::utf8::encode_utf8(text::lowercase(e.name))),
        SortColumn::Kind => byte_numbers(vstd::utf8::encode_utf8(e.kind.text())),
        SortColumn::Size => seq![
            match e.size {
                Some(s) => s as i128,
                None => 0i128,
            },
        ],
        SortColumn::Modified => match e.modified {
            Some(t) => seq![t.secs as i128, t.nanos as i128],
            None => Seq::empty(),
        },
    }
}

/// What entries are sorted by: directories are at the front whichever way the rest goes.
pub open spec fn sort_items(entries: Seq<EntryView>, col: SortColumn) -> Seq<sort::ItemView> {
    entries.map_values(|e: EntryView| (e.kind == FileKind::Directory, sort_key(e, col)))
}

/// What an entry is sorted by in a column.
fn make_key(e: &FileEntry, col: SortColumn) -> (r: Vec<i128>)
    ensures
        r@ == sort_key(e@, col),
{
    match col {
        SortColumn::Name => {
            let lower = e.name.as_str().to_lowercase();
            bytes_key(lower.as_str().as_bytes())
        },
        SortColumn::Kind => bytes_key(e.kind.label().as_bytes()),
        SortColumn::Size => {
            let mut out: Vec<i128> = Vec::new();
            out.push(
                match e.size {
                    Some(s) => s as i128,
                    None => 0,
                },
            );
            assert(out@ =~= sort_key(e@, col));
            out
        },
        SortColumn::Modified => {
            let mut out: Vec<i128> = Vec::new();
            if let Some(t) = e.modified {
                out.push(t.secs as i128);
                out.push(t.nanos as i128);
            }
            assert(out@ =~= sort_key(e@, col));
            out
        },
    }
}

/// Whether an order is the descending one.
pub open spec fn is_descending(order: SortOrder) -> bool {
    order == SortOrder::Descending
}

/// The entries in their one stable order, with the directories first.
pub open spec fn sorted(entries: Seq<EntryView>, col: SortColumn, order: SortOrder) -> Seq<
    EntryView,
> {
    sort::rearranged(
        entries,
        choose|places: Seq<usize>|
            sort::is_stable_order(places, sort_items(entries, col), is_descending(order)),
    )
}

/// Sorts entries stably, with the directories first.
pub fn sort_entries(entries: &mut Vec<FileEntry>, col: SortColumn, order: SortOrder)
    ensures
        entry_views(final(entries)@) == sorted(entry_views(old(entries)@), col, order),
        exists|places: Seq<usize>|
            sort::is_stable_order(
                places,
                sort_items(entry_views(old(entries)@), col),
                is_descending(order),
            ) && final(entries)@ == #[trigger] sort::rearranged(old(entries)@, places),
{
    let mut items: Vec<SortItem> = Vec::new();
    let ghost all = sort_items(entry_views(entries@), col);
    let mut i: usize = 0;
    assert(sort::item_views(items@) =~= all.take(0));
    while i < entries.len()
        invariant
            i <= entries@.len(),
            items@.len() == i,
            all == sort_items(entry_views(entries@), col),
            sort::item_views(items@) == all.take(i as int),
        decreases entries@.len() - i,
    {
        let ghost before = sort::item_views(items@);
        let front = match entries[i].kind {
            FileKind::Directory => true,
            _ => false,
        };
        let item = SortItem { front, key: make_key(&entries[i], col) };
        let ghost v = item@;
        items.push(item);
        i += 1;
        assert(sort::item_views(items@) =~= before.push(v));
        assert(sort::item_views(items@) =~= all.take(i as int));
    }
    assert(sort::item_views(items@) =~= all);
    let descending = match order {
        SortOrder::Descending => true,
        SortOrder::Ascending => false,
    };
    let ghost before = entries@;
    sort_by_items(entries, &items, descending);
    proof {
        let places = choose|places: Seq<usize>|
            sort::is_stable_order(places, all, descending) && entries@
                == #[trigger] sort::rearranged(before, places);
        let one = choose|one: Seq<usize>| sort::is_stable_order(one, all, descending);
        sort::stable_order_is_unique(places, one, all, descending);
        assert(entry_views(entries@) =~= sorted(entry_views(before), col, order));
    }
}

/// The entries are sorted by a stable order, which they always have.
pub proof fn sorted_entries_are_in_order(
    entries: Seq<EntryView>,
    col: SortColumn,
    order: SortOrder,
)
    requires
        entries.len() <= usize::MAX,
    ensures
        exists|places: Seq<usize>|
            sort::is_stable_order(places, sort_items(entries, col), is_descending(order))
                && sorted(entries, col, order) == #[trigger] sort::rearranged(entries, places),
{
    assert(sort_items(entries, col).len() == entries.len());
    sort::stable_order_exists(sort_items(entries, col), is_descending(order));
    let places = choose|places: Seq<usize>|
        sort::is_stable_order(places, sort_items(entries, col), is_descending(order));
    assert(sorted(entries, col, order) == sort::rearranged(entries, places));
}

/// Whatever the entries are sorted by, and in which order, no entry stands before a directory but
/// directories.
pub proof fn directories_come_first(
    entries: Seq<EntryView>,
    col: SortColumn,
    order: SortOrder,
    k: int,
    l: int,
)
    requires
        entries.len() <= usize::MAX,
        0 <= k < l < entries.len(),
        sorted(entries, col, order)[l].kind == FileKind::Directory,
    ensures
        sorted(entries, col, order)[k].kind == FileKind::Directory,
{
    sorted_entries_are_in_order(entries, col, order);
    let items = sort_items(entries, col);
    let descending = is_descending(order);
    let places = choose|places: Seq<usize>|
        sort::is_stable_order(places, items, descending) && sorted(entries, col, order)
            == #[trigger] sort::rearranged(entries, places);
    assert(items.len() == entries.len());
    assert(sort::place_before(items, descending, places[k] as int, places[l] as int));
}

/// Sorting loses no entry and adds none.
pub proof fn sorting_keeps_every_entry(
    entries: Seq<EntryView>,
    col: SortColumn,
    order: SortOrder,
)
    requires
        entries.len() <= usize::MAX,
    ensures
        sorted(entries, col, order).len() == entries.len(),
        sorted(entries, col, order).to_multiset() == entries.to_multiset(),
{
    sorted_entries_are_in_order(entries, col, order);
    let items = sort_items(entries, col);
    let places = choose|places: Seq<usize>|
        sort::is_stable_order(places, items, is_descending(order)) && sorted(entries, col, order)
            == #[trigger] sort::rearranged(entries, places);
    assert(items.len() == entries.len());
    sort::rearranging_keeps_every_item(entries, places, items, is_descending(order));
}

/// Hidden entries are left out unless they are asked for, and with them every entry is listed.
pub proof fn hidden_entries_are_left_out(records: Seq<DirRecord>, show_hidden: bool)
    ensures
        forall|i: int|
            0 <= i < listed(records, show_hidden).len() && !show_hidden ==> !((
            #[trigger] listed(records, show_hidden)[i]).name.len() > 0 && listed(
                records,
                show_hidden,
            )[i].name[0] == '.'),
        show_hidden ==> listed(records, show_hidden).len() == records.len(),
    decreases records.len(),
{
    if records.len() > 0 {
        hidden_entries_are_left_out(records.drop_last(), show_hidden);
        let rest = listed(records.drop_last(), show_hidden);
        assert forall|i: int|
            0 <= i < listed(records, show_hidden).len() && !show_hidden implies !((
        #[trigger] listed(records, show_hidden)[i]).name.len() > 0 && listed(
            records,
            show_hidden,
        )[i].name[0] == '.') by {
            if i < rest.len() {
                assert(listed(records, show_hidden)[i] == rest[i]);
            }
        }
    }
}

proof fn lemma_pairs_in_order(a: Seq<i128>, b: Seq<i128>)
    requires
        !sort::key_before(b, a),
    ensures
        a.len() == 1 && b.len() == 1 ==> a[0] <= b[0],
        a.len() == 2 && b.len() == 2 ==> a[0] < b[0] || (a[0] == b[0] && a[1] <= b[1]),
        b.len() == 0 ==> a.len() == 0,
{
    reveal_with_fuel(sort::key_before, 3);
}

/// Of two entries in their order the keys are in order.
proof fn lemma_keys_in_order(
    entries: Seq<EntryView>,
    col: SortColumn,
    order: SortOrder,
    k: int,
    l: int,
)
    requires
        entries.len() <= usize::MAX,
        0 <= k < l < entries.len(),
        (sorted(entries, col, order)[k].kind == FileKind::Directory) == (sorted(
            entries,
            col,
            order,
        )[l].kind == FileKind::Directory),
    ensures
        sorted(entries, col, order).len() == entries.len(),
        order == SortOrder::Ascending ==> !sort::key_before(
            sort_key(sorted(entries, col, order)[l], col),
            sort_key(sorted(entries, col, order)[k], col),
        ),
        order == SortOrder::Descending ==> !sort::key_before(
            sort_key(sorted(entries, col, order)[k], col),
            sort_key(sorted(entries, col, order)[l], col),
        ),
{
    sorted_entries_are_in_order(entries, col, order);
    let items = sort_items(entries, col);
    let descending = is_descending(order);
    let places = choose|places: Seq<usize>|
        sort::is_stable_order(places, items, descending) && sorted(entries, col, order)
            == #[trigger] sort::rearranged(entries, places);
    assert(items.len() == entries.len());
    let i = places[k] as int;
    let j = places[l] as int;
    assert(sort::place_before(items, descending, i, j));
    sort::lemma_not_before_back(items, descending, i, j);
    assert(items[i] == (entries[i].kind == FileKind::Directory, sort_key(entries[i], col)));
    assert(items[j] == (entries[j].kind == FileKind::Directory, sort_key(entries[j], col)));
}

/// Sorted by the time of the last change, of two entries that are both directories or both not the
/// earlier one comes first: the one with fewer seconds, and of two in the same second the one with
/// fewer nanoseconds. An entry without a time comes before all that have one. Descending it is the
/// other way round.
pub proof fn entries_are_sorted_by_time(
    entries: Seq<EntryView>,
    order: SortOrder,
    k: int,
    l: int,
)
    requires
        entries.len() <= usize::MAX,
        0 <= k < l < entries.len(),
        (sorted(entries, SortColumn::Modified, order)[k].kind == FileKind::Directory) == (sorted(
            entries,
            SortColumn::Modified,
            order,
        )[l].kind == FileKind::Directory),
    ensures
        ({
            let a = sorted(entries, SortColumn::Modified, order)[k].modified;
            let b = sorted(entries, SortColumn::Modified, order)[l].modified;
            &&& order == SortOrder::Ascending && a is Some ==> b is Some && (a->0.secs < b->0.secs
                || (a->0.secs == b->0.secs && a->0.nanos <= b->0.nanos))
            &&& order == SortOrder::Descending && b is Some ==> a is Some && (b->0.secs < a->0.secs
                || (b->0.secs == a->0.secs && b->0.nanos <= a->0.nanos))
        }),
{
    let s = sorted(entries, SortColumn::Modified, order);
    lemma_keys_in_order(entries, SortColumn::Modified, order, k, l);
    let a = sort_key(s[k], SortColumn::Modified);
    let b = sort_key(s[l], SortColumn::Modified);
    match order {
        SortOrder::Ascending => lemma_pairs_in_order(a, b),
        SortOrder::Descending => lemma_pairs_in_order(b, a),
    }
}

/// Sorted by size, of two entries that are both directories or both not the smaller one comes
/// first, and descending the larger one. No size counts as 0.
pub proof fn entries_are_sorted_by_size(
    entries: Seq<EntryView>,
    order: SortOrder,
    k: int,
    l: int,
)
    requires
        entries.len() <= usize::MAX,
        0 <= k < l < entries.len(),
        (sorted(entries, SortColumn::Size, order)[k].kind == FileKind::Directory) == (sorted(
            entries,
            SortColumn::Size,
            order,
        )[l].kind == FileKind::Directory),
    ensures
        ({
            let a = sorted(entries, SortColumn::Size, order)[k].size;
            let b = sorted(entries, SortColumn::Size, order)[l].size;
            &&& order == SortOrder::Ascending && a is Some && b is Some ==> a->0 <= b->0
            &&& order == SortOrder::Descending && a is Some && b is Some ==> a->0 >= b->0
            &&& order == SortOrder::Ascending && a is Some && b is None ==> a->0 == 0
            &&& order == SortOrder::Descending && a is None && b is Some ==> b->0 == 0
        }),
{
    let s = sorted(entries, SortColumn::Size, order);
    lemma_keys_in_order(entries, SortColumn::Size, order, k, l);
    let a = sort_key(s[k], SortColumn::Size);
    let b = sort_key(s[l], SortColumn::Size);
    match order {
        SortOrder::Ascending => lemma_pairs_in_order(a, b),
        SortOrder::Descending => lemma_pairs_in_order(b, a),
    }
}

/// Sorted by kind, files come before symbolic links, and descending links before files.
pub proof fn entries_are_sorted_by_kind(
    entries: Seq<EntryView>,
    order: SortOrder,
    k: int,
    l: int,
)
    requires
        entries.len() <= usize::MAX,
        0 <= k < l < entries.len(),
    ensures
        ({
            let a = sorted(entries, SortColumn::Kind, order)[k].kind;
            let b = sorted(entries, SortColumn::Kind, order)[l].kind;
            &&& order == SortOrder::Ascending && a == FileKind::Symlink ==> b == FileKind::Symlink
            &&& order == SortOrder::Descending && a == FileKind::File ==> b == FileKind::File
        }),
{
    let s = sorted(entries, SortColumn::Kind, order);
    if s[l].kind == FileKind::Directory {
        directories_come_first(entries, SortColumn::Kind, order, k, l);
    } else if s[k].kind != FileKind::Directory {
        lemma_keys_in_order(entries, SortColumn::Kind, order, k, l);
        lemma_file_before_symlink();
    }
}

proof fn lemma_file_before_symlink()
    ensures
        sort::key_before(
            byte_numbers(vstd::utf8::encode_utf8("File"@)),
            byte_numbers(vstd::utf8::encode_utf8("Symlink"@)),
        ),
{
    reveal_strlit("File");
    reveal_strlit("Symlink");
    let f = vstd::utf8::encode_utf8("File"@);
    let s = vstd::utf8::encode_utf8("Symlink"@);
    reveal_with_fuel(vstd::utf8::encode_utf8, 2);
    assert((70u32 & 0x7F) as u8 == 70u8 && (83u32 & 0x7F) as u8 == 83u8) by (bit_vector);
    assert(f[0] == 70 && s[0] == 83);
    assert(byte_numbers(f)[0] == 70 && byte_numbers(s)[0] == 83);
}

/// Sorted by name, of two entries that are both directories or both not the one comes first whose
/// name in lower case has the smaller byte at the first place where they differ, or ends there.
/// Descending it is the other way round.
pub proof fn entries_are_sorted_by_name(
    entries: Seq<EntryView>,
    order: SortOrder,
    k: int,
    l: int,
    at: int,
)
    requires
        entries.len() <= usize::MAX,
        0 <= k < l < entries.len(),
        (sorted(entries, SortColumn::Name, order)[k].kind == FileKind::Directory) == (sorted(
            entries,
            SortColumn::Name,
            order,
        )[l].kind == FileKind::Directory),
        ({
            let a = vstd::utf8::encode_utf8(
                text::lowercase(sorted(entries, SortColumn::Name, order)[k].name),
            );
            let b = vstd::utf8::encode_utf8(
                text::lowercase(sorted(entries, SortColumn::Name, order)[l].name),
            );
            &&& 0 <= at <= a.len() && at <= b.len()
            &&& forall|i: int| 0 <= i < at ==> a[i] == b[i]
            &&& at < a.len() && at < b.len() ==> a[at] != b[at]
        }),
    ensures
        ({
            let a = vstd::utf8::encode_utf8(
                text::lowercase(sorted(entries, SortColumn::Name, order)[k].name),
            );
            let b = vstd::utf8::encode_utf8(
                text::lowercase(sorted(entries, SortColumn::Name, order)[l].name),
            );
            &&& order == SortOrder::Ascending && at < a.len() ==> at < b.len() && a[at] < b[at]
            &&& order == SortOrder::Descending && at < b.len() ==> at < a.len() && b[at] < a[at]
        }),
{
    let s = sorted(entries, SortColumn::Name, order);
    lemma_keys_in_order(entries, SortColumn::Name, order, k, l);
    let a = vstd::utf8::encode_utf8(text::lowercase(s[k].name));
    let b = vstd::utf8::encode_utf8(text::lowercase(s[l].name));
    sort::first_difference_decides(byte_numbers(a), byte_numbers(b), at);
    sort::first_difference_decides(byte_numbers(b), byte_numbers(a), at);
}

/// Of two entries that are alike in what they are sorted by, the one that stood first stays first,
/// whichever way they are sorted: each entry of the result comes from its own place.
pub proof fn sorting_is_stable(entries: Seq<EntryView>, col: SortColumn, order: SortOrder)
    requires
        entries.len() <= usize::MAX,
    ensures
        exists|places: Seq<usize>|
            #![trigger places.len()]
            {
                &&& places.len() == entries.len()
                &&& forall|k: int|
                    0 <= k < places.len() ==> 0 <= (#[trigger] places[k]) < entries.len()
                        && sorted(entries, col, order)[k] == entries[places[k] as int]
                &&& forall|k: int, l: int|
                    0 <= k < l < places.len() && alike(
                        entries[places[k] as int],
                        entries[places[l] as int],
                        col,
                    ) ==> #[trigger] places[k] < #[trigger] places[l]
            },
{
    sorted_entries_are_in_order(entries, col, order);
    let items = sort_items(entries, col);
    let descending = is_descending(order);
    let places = choose|places: Seq<usize>|
        sort::is_stable_order(places, items, descending) && sorted(entries, col, order)
            == #[trigger] sort::rearranged(entries, places);
    assert(items.len() == entries.len());
    assert forall|k: int, l: int|
        0 <= k < l < places.len() && alike(
            entries[places[k] as int],
            entries[places[l] as int],
            col,
        ) implies #[trigger] places[k] < #[trigger] places[l] by {
        let i = places[k] as int;
        let j = places[l] as int;
        assert(sort::place_before(items, descending, i, j));
        assert(items[i] == (entries[i].kind == FileKind::Directory, sort_key(entries[i], col)));
        assert(items[j] == (entries[j].kind == FileKind::Directory, sort_key(entries[j], col)));
        assert(items[i].1 =~= items[j].1);
        sort::lemma_key_not_before_itself(items[i].1);
    }
    assert(places.len() == entries.len());
}

/// Whether two entries are alike in what they are sorted by in a column.
pub open spec fn alike(a: EntryView, b: EntryView, col: SortColumn) -> bool {
    &&& (a.kind == FileKind::Directory) == (b.kind == FileKind::Directory)
    &&& match col {
        SortColumn::Name => a.name == b.name,
        SortColumn::Kind => a.kind == b.kind,
        SortColumn::Size => a.size == b.size,
        SortColumn::Modified => a.modified == b.modified,
    }
}

/// What is listed of a record is what the file system says of it: a directory as one, a symbolic
/// link as one, anything else as a file, with a size only where it is a regular file.
pub proof fn listed_entry_is_the_record(r: DirRecord, show_hidden: bool)
    requires
        show_hidden || text::lossy_text(r.name@).len() == 0 || text::lossy_text(r.name@)[0] != '.',
    ensures
        listed(seq![r], show_hidden).len() == 1,
        ({
            let e = listed(seq![r], show_hidden)[0];
            &&& e.name == text::lossy_text(r.name@)
            &&& e.path == r.path@
            &&& e.kind == FileKind::Directory <==> r.meta is Some && r.meta->0.is_dir
            &&& e.kind == FileKind::Symlink <==> r.meta is Some && !r.meta->0.is_dir
                && r.meta->0.is_symlink
            &&& e.size is Some <==> r.meta is Some && r.meta->0.is_file
            &&& e.size is Some ==> e.size->0 == r.meta->0.len
            &&& r.meta is Some ==> e.modified == r.meta->0.modified
            &&& r.meta is None ==> e.modified is None
            &&& r.tag_data is Some ==> e.tags == tags::tags_in(Some(r.tag_data->0@))
            &&& r.tag_data is None ==> e.tags == tags::tags_in(None)
        }),
{
    reveal_with_fuel(listed, 2);
    let one = seq![r];
    assert(one.drop_last() =~= Seq::<DirRecord>::empty());
    assert(one.last() == r);
}

/// A directory is listed in the order in which its records come.
pub proof fn listing_keeps_the_order(a: Seq<DirRecord>, b: Seq<DirRecord>, show_hidden: bool)
    ensures
        listed(a + b, show_hidden) == listed(a, show_hidden) + listed(b, show_hidden),
    decreases b.len(),
{
    if b.len() == 0 {
        assert(a + b =~= a);
        assert(listed(a, show_hidden) + listed(b, show_hidden) =~= listed(a, show_hidden));
    } else {
        listing_keeps_the_order(a, b.drop_last(), show_hidden);
        assert((a + b).drop_last() =~= a + b.drop_last());
        assert((a + b).last() == b.last());
        assert(listed(a + b, show_hidden) =~= listed(a, show_hidden) + listed(b, show_hidden));
    }
}

/// A size of at least one kilobyte is shown in the largest unit that it reaches, to the nearest
/// tenth. Below that it is shown in bytes, and nothing is shown of an empty file or of no size.
pub proof fn size_is_shown_to_the_nearest_tenth(b: u64)
    requires
        b < 0x20_0000_0000_0000,
    ensures
        b == 0 ==> size_text(Some(b)) == "—"@,
        size_text(None) == "—"@,
        0 < b < 1024 ==> size_text(Some(b)) == text::decimal(b as nat) + " B"@,
        1024 <= b ==> exists|tenths: int|
            #![trigger text::decimal((tenths / 10) as nat)]
            {
                let unit: int = if b < 1_048_576 {
                    1024
                } else if b < 1_073_741_824 {
                    1_048_576
                } else {
                    1_073_741_824
                };
                &&& size_text(Some(b)) == text::decimal((tenths / 10) as nat) + "."@
                    + text::decimal((tenths % 10) as nat) + (if unit == 1024 {
                    " KB"@
                } else if unit == 1_048_576 {
                    " MB"@
                } else {
                    " GB"@
                })
                &&& 2 * tenths * unit <= 20 * b + unit
                &&& 20 * b <= 2 * tenths * unit + unit
            },
{
    if b >= 1024 {
        let unit: int = if b < 1_048_576 {
            1024
        } else if b < 1_073_741_824 {
            1_048_576
        } else {
            1_073_741_824
        };
        assert(b as int / 1 == b);
        assert(double_step(b as int, 1) == 1);
        assert(b as int % 1 == 0);
        assert(as_double(b as int) == b);
        let tenths = tenths_of(b as int, unit);
        lemma_nearest(b as int * 10, unit);
        assert(tenths == nearest_even(b as int * 10, unit));
        assert(2 * tenths * unit == 2 * (tenths * unit)) by (nonlinear_arith);
        assert(text::decimal((tenths / 10) as nat) == text::decimal((tenths / 10) as nat));
        assert(size_text(Some(b)) == point_text(tenths) + (if unit == 1024 {
            " KB"@
        } else if unit == 1_048_576 {
            " MB"@
        } else {
            " GB"@
        }));
    }
}

proof fn lemma_nearest(a: int, d: int)
    requires
        a >= 0,
        d > 0,
    ensures
        2 * (nearest_even(a, d) * d) <= 2 * a + d,
        2 * a <= 2 * (nearest_even(a, d) * d) + d,
{
    let q = a / d;
    let r = a % d;
    assert(a == q * d + r && 0 <= r < d) by (nonlinear_arith)
        requires
            q == a / d,
            r == a % d,
            d > 0,
    ;
    assert((q + 1) * d == q * d + d) by (nonlinear_arith);
}

/// The moment that is shown is the minute of the last change, counted in years of 365 and months of
/// 30 days since 1970.
pub proof fn shown_time_is_the_minute(t: Timestamp)
    requires
        t.secs >= 0,
    ensures
        exists|year: int, month: int, day: int, hour: int, minute: int|
            {
                &&& modified_text(Some(t)) == #[trigger] date_text(year, month, day, hour, minute)
                &&& 1 <= month <= 13 && 1 <= day <= 30 && 0 <= hour < 24 && 0 <= minute < 60
                &&& (month - 1) * 30 + day <= 365
                &&& t.secs as int / 60 == ((((year - 1970) * 365 + (month - 1) * 30 + (day - 1)) * 24
                    + hour) * 60 + minute)
            },
        modified_text(None) == "—"@,
{
    let secs = t.secs as int;
    let days = secs / 86400;
    let year = 1970 + days / 365;
    let month = (days % 365) / 30 + 1;
    let day = (days % 365) % 30 + 1;
    let hour = (secs / 3600) % 24;
    let minute = (secs / 60) % 60;
    assert(modified_text(Some(t)) =~= date_text(year, month, day, hour, minute));
}

/// How a moment is written: the year in four places at least, the rest in two.
pub open spec fn date_text(year: int, month: int, day: int, hour: int, minute: int) -> Seq<char> {
    text::padded(year as nat, 4) + "-"@ + text::padded(month as nat, 2) + "-"@ + text::padded(
        day as nat,
        2,
    ) + " "@ + text::padded(hour as nat, 2) + ":"@ + text::padded(minute as nat, 2)
}

} // verus!
