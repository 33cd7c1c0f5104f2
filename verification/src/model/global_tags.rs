//! The tags that the user has set up.

use vstd::prelude::*;

use crate::model::tags::TagColor;
use crate::path;
use crate::path::FsPath;
use crate::sort;
use crate::sort::{sort_by_items, SortItem};
use crate::text;
use crate::text::{lines, replace_char, text_lossy};

verus! {

/// A tag that the user has set up. The colour is a number: 0 for none, then the colours.
#[derive(Debug)]
pub struct GlobalTag {
    pub name: String,
    pub color: u8,
}

/// A tag by its name and colour number.
pub type GlobalTagView = (Seq<char>, u8);

impl View for GlobalTag {
    type V = GlobalTagView;

    open spec fn view(&self) -> GlobalTagView {
        (self.name@, self.color)
    }
}

impl GlobalTag {
    /// The colour that is drawn.
    pub fn rgb(&self) -> (r: (u8, u8, u8))
        ensures
            r == TagColor::of_number(self.color).drawn(),
    {
        TagColor::from_number(self.color).rgb()
    }
}

/// All tags that the user has set up.
#[derive(Debug)]
pub struct GlobalTags {
    pub items: Vec<GlobalTag>,
}

/// Tags by their names and colour numbers.
pub open spec fn item_views(items: Seq<GlobalTag>) -> Seq<GlobalTagView> {
    items.map_values(|t: GlobalTag| t@)
}

impl View for GlobalTags {
    type V = Seq<GlobalTagView>;

    open spec fn view(&self) -> Seq<GlobalTagView> {
        item_views(self.items@)
    }
}

/// Whether a tag of this name is set up.
pub open spec fn has_name(tags: Seq<GlobalTagView>, name: Seq<char>) -> bool {
    exists|i: int| 0 <= i < tags.len() && (#[trigger] tags[i]).0 == name
}

/// Whether no two tags have the same name.
pub open spec fn names_distinct(tags: Seq<GlobalTagView>) -> bool {
    forall|i: int, j: int|
        0 <= i < j < tags.len() ==> (#[trigger] tags[i]).0 != (#[trigger] tags[j]).0
}

/// The tags that stand ready at the first start.
pub open spec fn seed_tags() -> Seq<GlobalTagView> {
    seq![
        ("Red"@, 6u8),
        ("Orange"@, 7u8),
        ("Yellow"@, 5u8),
        ("Green"@, 2u8),
        ("Blue"@, 4u8),
        ("Purple"@, 3u8),
        ("Gray"@, 1u8),
    ]
}

impl Default for GlobalTags {
    fn default() -> (r: GlobalTags)
        ensures
            r@.len() == 0,
    {
        GlobalTags { items: Vec::new() }
    }
}

fn tag_of(name: &str, color: u8) -> (r: GlobalTag)
    ensures
        r@ == (name@, color),
{
    GlobalTag { name: name.to_owned(), color }
}

impl GlobalTags {
    /// The tags that stand ready at the first start: the colours of Finder.
    pub fn seeded() -> (r: GlobalTags)
        ensures
            r@ == seed_tags(),
    {
        let mut items: Vec<GlobalTag> = Vec::new();
        items.push(tag_of("Red", 6));
        items.push(tag_of("Orange", 7));
        items.push(tag_of("Yellow", 5));
        items.push(tag_of("Green", 2));
        items.push(tag_of("Blue", 4));
        items.push(tag_of("Purple", 3));
        items.push(tag_of("Gray", 1));
        let r = GlobalTags { items };
        assert(r@ =~= seed_tags());
        r
    }

    /// Adds a tag at the end, unless one of this name is there. Says whether it was added.
    pub fn add(&mut self, name: String, color: u8) -> (r: bool)
        ensures
            r == !has_name(old(self)@, name@),
            final(self)@ == if r {
                old(self)@.push((name@, color))
            } else {
                old(self)@
            },
    {
        let mut i: usize = 0;
        while i < self.items.len()
            invariant
                i <= self.items@.len(),
                forall|k: int| 0 <= k < i ==> (#[trigger] self@[k]).0 != name@,
            decreases self.items@.len() - i,
        {
            assert(self@[i as int] == self.items@[i as int]@);
            if self.items[i].name == name {
                return false;
            }
            i += 1;
        }
        let ghost before = self@;
        let ghost t = (name@, color);
        self.items.push(GlobalTag { name, color });
        assert(self@ =~= before.push(t));
        true
    }

    /// Removes a tag; a place that does not exist is passed over. Says whether there was one.
    pub fn remove(&mut self, idx: usize) -> (r: bool)
        ensures
            r == (idx < old(self)@.len()),
            final(self)@ == if r {
                old(self)@.remove(idx as int)
            } else {
                old(self)@
            },
    {
        if idx < self.items.len() {
            let ghost before = self@;
            let _ = self.items.remove(idx);
            assert(self@ =~= before.remove(idx as int));
            true
        } else {
            false
        }
    }

    /// Gives a tag another name. Says whether there was one.
    pub fn rename(&mut self, idx: usize, name: String) -> (r: bool)
        ensures
            r == (idx < old(self)@.len()),
            final(self)@ == if r {
                old(self)@.update(idx as int, (name@, old(self)@[idx as int].1))
            } else {
                old(self)@
            },
    {
        if idx < self.items.len() {
            let ghost before = self@;
            let ghost t = (name@, before[idx as int].1);
            let color = self.items[idx].color;
            self.items.set(idx, GlobalTag { name, color });
            assert(self@ =~= before.update(idx as int, t));
            true
        } else {
            false
        }
    }

    /// Gives a tag another colour. Says whether there was one.
    pub fn set_color(&mut self, idx: usize, color: u8) -> (r: bool)
        ensures
            r == (idx < old(self)@.len()),
            final(self)@ == if r {
                old(self)@.update(idx as int, (old(self)@[idx as int].0, color))
            } else {
                old(self)@
            },
    {
        if idx < self.items.len() {
            let ghost before = self@;
            let name = self.items[idx].name.clone();
            let ghost t = (before[idx as int].0, color);
            self.items.set(idx, GlobalTag { name, color });
            assert(self@ =~= before.update(idx as int, t));
            true
        } else {
            false
        }
    }
}

/// Adding tags never puts two of the same name side by side.
pub proof fn added_names_stay_distinct(tags: Seq<GlobalTagView>, name: Seq<char>, color: u8)
    requires
        names_distinct(tags),
        !has_name(tags, name),
    ensures
        names_distinct(tags.push((name, color))),
        has_name(tags.push((name, color)), name),
{
    let t = tags.push((name, color));
    assert(t[tags.len() as int].0 == name);
    assert forall|i: int, j: int| 0 <= i < j < t.len() implies (#[trigger] t[i]).0 != (
    #[trigger] t[j]).0 by {
        assert(t[i] == tags[i]);
    }
}

/// Removing a tag leaves the names distinct.
pub proof fn removed_names_stay_distinct(tags: Seq<GlobalTagView>, idx: int)
    requires
        names_distinct(tags),
        0 <= idx < tags.len(),
    ensures
        names_distinct(tags.remove(idx)),
{
    let t = tags.remove(idx);
    assert forall|i: int, j: int| 0 <= i < j < t.len() implies (#[trigger] t[i]).0 != (
    #[trigger] t[j]).0 by {
        let a = if i < idx {
            i
        } else {
            i + 1
        };
        let b = if j < idx {
            j
        } else {
            j + 1
        };
        assert(t[i] == tags[a] && t[j] == tags[b]);
    }
}

/// The query that finds what is tagged with a name; an apostrophe in it is escaped.
pub open spec fn tag_query_text(name: Seq<char>) -> Seq<char> {
    "kMDItemUserTags == '"@ + text::replaced(name, '\'', "\\'"@) + "'"@
}

/// The query that finds what is tagged with a name.
pub fn tag_query(name: &str) -> (r: String)
    ensures
        r@ == tag_query_text(name@),
{
    let mut out = "kMDItemUserTags == '".to_owned();
    out.push_str(replace_char(name, '\'', "\\'").as_str());
    out.push_str("'");
    out
}

/// The paths of the lines that are not empty.
pub open spec fn listed_paths(lines: Seq<Seq<char>>) -> Seq<Seq<u8>>
    decreases lines.len(),
{
    if lines.len() == 0 {
        Seq::empty()
    } else if lines.last().len() == 0 {
        listed_paths(lines.drop_last())
    } else {
        listed_paths(lines.drop_last()).push(vstd::utf8::encode_utf8(lines.last()))
    }
}

/// What a path is sorted by: its file name, and a path without one first.
pub open spec fn name_key(p: Seq<u8>) -> Seq<i128> {
    match path::file_name_of(p) {
        Some(n) => n.map_values(|b: u8| b as i128),
        None => Seq::empty(),
    }
}

/// What the paths are sorted by.
pub open spec fn name_items(paths: Seq<Seq<u8>>) -> Seq<sort::ItemView> {
    paths.map_values(|p: Seq<u8>| (false, name_key(p)))
}

/// The bytes as a key.
pub fn bytes_key(bytes: &[u8]) -> (r: Vec<i128>)
    ensures
        r@ == bytes@.map_values(|b: u8| b as i128),
{
    let mut out: Vec<i128> = Vec::new();
    let mut i: usize = 0;
    while i < bytes.len()
        invariant
            i <= bytes@.len(),
            out@ == bytes@.map_values(|b: u8| b as i128).take(i as int),
        decreases bytes@.len() - i,
    {
        out.push(bytes[i] as i128);
        i += 1;
        assert(out@ =~= bytes@.map_values(|b: u8| b as i128).take(i as int));
    }
    assert(out@ =~= bytes@.map_values(|b: u8| b as i128));
    out
}

/// The paths in the stable order of their file names.
pub open spec fn sorted_by_name(paths: Seq<Seq<u8>>) -> Seq<Seq<u8>> {
    sort::rearranged(
        paths,
        choose|order: Seq<usize>| sort::is_stable_order(order, name_items(paths), false),
    )
}

/// Sorts paths stably by their file names.
pub fn sort_by_name(paths: &mut Vec<FsPath>)
    ensures
        path::path_views(final(paths)@) == sorted_by_name(path::path_views(old(paths)@)),
{
    let ghost first = paths@;
    let ghost all = name_items(path::path_views(paths@));
    let mut items: Vec<SortItem> = Vec::new();
    let mut i: usize = 0;
    assert(sort::item_views(items@) =~= all.take(0));
    while i < paths.len()
        invariant
            i <= paths@.len(),
            items@.len() == i,
            all == name_items(path::path_views(paths@)),
            sort::item_views(items@) == all.take(i as int),
        decreases paths@.len() - i,
    {
        let ghost before = sort::item_views(items@);
        let key = match paths[i].file_name() {
            Some(n) => bytes_key(n.as_slice()),
            None => {
                let none: Vec<i128> = Vec::new();
                assert(none@ =~= Seq::empty());
                none
            },
        };
        let item = SortItem { front: false, key };
        let ghost v = item@;
        items.push(item);
        i += 1;
        assert(sort::item_views(items@) =~= before.push(v));
        assert(sort::item_views(items@) =~= all.take(i as int));
    }
    assert(sort::item_views(items@) =~= all);
    sort_by_items(paths, &items, false);
    proof {
        let order = choose|order: Seq<usize>|
            sort::is_stable_order(order, sort::item_views(items@), false) && paths@
                == #[trigger] sort::rearranged(first, order);
        let one = choose|one: Seq<usize>| sort::is_stable_order(one, all, false);
        sort::stable_order_is_unique(order, one, all, false);
        assert(path::path_views(paths@) =~= sorted_by_name(path::path_views(first)));
    }
}

/// Reads the paths that a search printed, one in a line, and sorts them by file name.
pub fn parse_search_output(output: &str) -> (r: Vec<FsPath>)
    ensures
        path::path_views(r@) == sorted_by_name(listed_paths(text::lines_of(output@))),
{
    let all = lines(output);
    let ghost views = text::text_views(all@);
    let mut paths: Vec<FsPath> = Vec::new();
    let mut i: usize = 0;
    assert(path::path_views(paths@) =~= listed_paths(views.take(0)));
    while i < all.len()
        invariant
            i <= all@.len(),
            views == text::text_views(all@),
            path::path_views(paths@) == listed_paths(views.take(i as int)),
        decreases all@.len() - i,
    {
        proof {
            assert(views.take(i + 1).drop_last() =~= views.take(i as int));
            assert(views.take(i + 1).last() == all@[i as int]@);
        }
        if !all[i].as_str().is_empty() {
            let ghost before = path::path_views(paths@);
            let p = FsPath::new(all[i].as_str());
            let ghost v = p@;
            paths.push(p);
            assert(path::path_views(paths@) =~= before.push(v));
        }
        i += 1;
    }
    assert(views.take(i as int) =~= views);
    sort_by_name(&mut paths);
    paths
}

/// The paths that a search printed; none where it failed.
pub fn search_by_tag(success: bool, stdout: &[u8]) -> (r: Vec<FsPath>)
    ensures
        success ==> path::path_views(r@) == sorted_by_name(
            listed_paths(text::lines_of(text::lossy_text(stdout@))),
        ),
        !success ==> r@.len() == 0,
{
    if success {
        let output = text_lossy(stdout);
        parse_search_output(output.as_str())
    } else {
        Vec::new()
    }
}

/// The paths that a search gives are all there, in the stable order of their file names.
pub proof fn found_paths_are_in_order(paths: Seq<Seq<u8>>)
    requires
        paths.len() <= usize::MAX,
    ensures
        exists|order: Seq<usize>|
            sort::is_stable_order(order, name_items(paths), false) && sorted_by_name(paths)
                == #[trigger] sort::rearranged(paths, order),
        sorted_by_name(paths).to_multiset() == paths.to_multiset(),
{
    let items = name_items(paths);
    assert(items.len() == paths.len());
    sort::stable_order_exists(items, false);
    let order = choose|order: Seq<usize>| sort::is_stable_order(order, items, false);
    assert(sorted_by_name(paths) == sort::rearranged(paths, order));
    sort::rearranging_keeps_every_item(paths, order, items, false);
}

/// The tags that stand ready at the start each have the colour that they are called after, and no
/// two the same name.
pub proof fn seed_tags_have_their_colors()
    ensures
        seed_tags().len() == 7,
        TagColor::of_number(seed_tags()[0].1) == TagColor::Red && seed_tags()[0].0 == "Red"@,
        TagColor::of_number(seed_tags()[1].1) == TagColor::Orange && seed_tags()[1].0 == "Orange"@,
        TagColor::of_number(seed_tags()[2].1) == TagColor::Yellow && seed_tags()[2].0 == "Yellow"@,
        TagColor::of_number(seed_tags()[3].1) == TagColor::Green && seed_tags()[3].0 == "Green"@,
        TagColor::of_number(seed_tags()[4].1) == TagColor::Blue && seed_tags()[4].0 == "Blue"@,
        TagColor::of_number(seed_tags()[5].1) == TagColor::Purple && seed_tags()[5].0 == "Purple"@,
        TagColor::of_number(seed_tags()[6].1) == TagColor::Gray && seed_tags()[6].0 == "Gray"@,
{
}

/// The query for a tag holds its name between single quotes, and a quote in the name is written with
/// a backslash before it, so that it does not end the name.
pub proof fn query_quotes_the_name(name: Seq<char>, before: Seq<char>, behind: Seq<char>)
    requires
        !name.contains('\''),
        !before.contains('\''),
        !behind.contains('\''),
    ensures
        tag_query_text(name) == "kMDItemUserTags == '"@ + name + "'"@,
        tag_query_text(before + seq!['\''] + behind) == "kMDItemUserTags == '"@ + (before
            + "\\'"@ + behind) + "'"@,
{
    let quote = '\'';
    let by = "\\'"@;
    text::lemma_replaced_without(name, quote, by);
    text::lemma_replaced_without(before, quote, by);
    text::lemma_replaced_without(behind, quote, by);
    text::replacing_goes_through_the_text(before + seq![quote], behind, quote, by, 'a');
    text::replacing_goes_through_the_text(before, seq![quote], quote, by, 'a');
}

/// What the search prints is one path a line, in its order; blank lines are none.
pub proof fn found_paths_are_the_lines(a: Seq<Seq<char>>, b: Seq<Seq<char>>, line: Seq<char>)
    ensures
        listed_paths(a + b) == listed_paths(a) + listed_paths(b),
        line.len() > 0 ==> listed_paths(seq![line]) == seq![vstd::utf8::encode_utf8(line)],
        line.len() == 0 ==> listed_paths(seq![line]).len() == 0,
    decreases b.len(),
{
    reveal_with_fuel(listed_paths, 2);
    assert(seq![line].drop_last() =~= Seq::<Seq<char>>::empty());
    assert(line.len() > 0 ==> listed_paths(seq![line]) =~= seq![vstd::utf8::encode_utf8(line)]);
    if b.len() == 0 {
        assert(a + b =~= a);
        assert(listed_paths(a) + listed_paths(b) =~= listed_paths(a));
    } else {
        found_paths_are_the_lines(a, b.drop_last(), line);
        assert((a + b).drop_last() =~= a + b.drop_last());
        assert((a + b).last() == b.last());
        assert(listed_paths(a + b) =~= listed_paths(a) + listed_paths(b));
    }
}

/// Sorted by name, of two paths the one comes first whose last component has the smaller byte at the
/// first place where the two differ, or ends there.
pub proof fn found_paths_are_sorted_by_name(paths: Seq<Seq<u8>>, k: int, l: int, at: int)
    requires
        paths.len() <= usize::MAX,
        0 <= k < l < paths.len(),
        path::file_name_of(sorted_by_name(paths)[k]) is Some,
        path::file_name_of(sorted_by_name(paths)[l]) is Some,
        ({
            let a = path::file_name_of(sorted_by_name(paths)[k])->0;
            let b = path::file_name_of(sorted_by_name(paths)[l])->0;
            &&& 0 <= at <= a.len() && at <= b.len()
            &&& forall|i: int| 0 <= i < at ==> a[i] == b[i]
            &&& at < a.len() && at < b.len() ==> a[at] != b[at]
        }),
    ensures
        ({
            let a = path::file_name_of(sorted_by_name(paths)[k])->0;
            let b = path::file_name_of(sorted_by_name(paths)[l])->0;
            at < a.len() ==> at < b.len() && a[at] < b[at]
        }),
{
    let items = name_items(paths);
    assert(items.len() == paths.len());
    sort::stable_order_exists(items, false);
    let order = choose|order: Seq<usize>| sort::is_stable_order(order, items, false);
    let s = sorted_by_name(paths);
    let i = order[k] as int;
    let j = order[l] as int;
    assert(s[k] == paths[i] && s[l] == paths[j]);
    assert(items[i] == (false, name_key(paths[i])));
    assert(items[j] == (false, name_key(paths[j])));
    assert(sort::place_before(items, false, i, j));
    sort::lemma_not_before_back(items, false, i, j);
    sort::first_difference_decides(name_key(paths[j]), name_key(paths[i]), at);
}

/// A name is taken where any of the tags has it.
pub proof fn any_tag_takes_the_name(a: Seq<GlobalTagView>, b: Seq<GlobalTagView>, x: GlobalTagView, name: Seq<char>)
    ensures
        has_name(a + b, name) <==> has_name(a, name) || has_name(b, name),
        has_name(seq![x], name) <==> x.0 == name,
        !has_name(Seq::<GlobalTagView>::empty(), name),
{
    let all = a + b;
    if has_name(a, name) {
        let i = choose|i: int| 0 <= i < a.len() && (#[trigger] a[i]).0 == name;
        assert(all[i] == a[i]);
    }
    if has_name(b, name) {
        let i = choose|i: int| 0 <= i < b.len() && (#[trigger] b[i]).0 == name;
        assert(all[a.len() + i] == b[i]);
    }
    if has_name(all, name) {
        let i = choose|i: int| 0 <= i < all.len() && (#[trigger] all[i]).0 == name;
        assert(all[i] == if i < a.len() { a[i] } else { b[i - a.len()] });
    }
    assert(seq![x][0] == x);
}

} // verus!
