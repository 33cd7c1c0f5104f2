//! Finder tags: how they are stored with a file.

use vstd::prelude::*;

use crate::model::property_list;
use crate::model::property_list::{read_strings, write_strings};
use crate::text;
use crate::text::{chars_copy, chars_of, find_char, parse_u8, push_decimal, string_of};

verus! {

/// The colour of a tag.
#[derive(Clone, Copy, Debug, PartialEq, Eq, Structural)]
pub enum TagColor {
    NoColor,
    Gray,
    Green,
    Purple,
    Blue,
    Yellow,
    Red,
    Orange,
}

impl TagColor {
    /// The number that stands for the colour.
    pub open spec fn number(self) -> u8 {
        match self {
            TagColor::NoColor => 0,
            TagColor::Gray => 1,
            TagColor::Green => 2,
            TagColor::Purple => 3,
            TagColor::Blue => 4,
            TagColor::Yellow => 5,
            TagColor::Red => 6,
            TagColor::Orange => 7,
        }
    }

    /// The colour of a number: none for any number beyond the colours.
    pub open spec fn of_number(n: u8) -> TagColor {
        if n == 1 {
            TagColor::Gray
        } else if n == 2 {
            TagColor::Green
        } else if n == 3 {
            TagColor::Purple
        } else if n == 4 {
            TagColor::Blue
        } else if n == 5 {
            TagColor::Yellow
        } else if n == 6 {
            TagColor::Red
        } else if n == 7 {
            TagColor::Orange
        } else {
            TagColor::NoColor
        }
    }

    /// The colour that is drawn.
    pub open spec fn drawn(self) -> (u8, u8, u8) {
        match self {
            TagColor::NoColor => (142, 142, 147),
            TagColor::Gray => (142, 142, 147),
            TagColor::Red => (255, 59, 48),
            TagColor::Orange => (255, 149, 0),
            TagColor::Yellow => (255, 204, 0),
            TagColor::Green => (52, 199, 89),
            TagColor::Blue => (0, 122, 255),
            TagColor::Purple => (175, 82, 222),
        }
    }

    /// The colour of a number.
    pub fn from_number(n: u8) -> (r: TagColor)
        ensures
            r == TagColor::of_number(n),
    {
        match n {
            1 => TagColor::Gray,
            2 => TagColor::Green,
            3 => TagColor::Purple,
            4 => TagColor::Blue,
            5 => TagColor::Yellow,
            6 => TagColor::Red,
            7 => TagColor::Orange,
            _ => TagColor::NoColor,
        }
    }

    /// The number that stands for the colour.
    pub fn to_number(self) -> (r: u8)
        ensures
            r == self.number(),
    {
        match self {
            TagColor::NoColor => 0,
            TagColor::Gray => 1,
            TagColor::Green => 2,
            TagColor::Purple => 3,
            TagColor::Blue => 4,
            TagColor::Yellow => 5,
            TagColor::Red => 6,
            TagColor::Orange => 7,
        }
    }

    /// The colour that is drawn, as red, green and blue.
    pub fn rgb(self) -> (r: (u8, u8, u8))
        ensures
            r == self.drawn(),
    {
        match self {
            TagColor::NoColor | TagColor::Gray => (142, 142, 147),
            TagColor::Red => (255, 59, 48),
            TagColor::Orange => (255, 149, 0),
            TagColor::Yellow => (255, 204, 0),
            TagColor::Green => (52, 199, 89),
            TagColor::Blue => (0, 122, 255),
            TagColor::Purple => (175, 82, 222),
        }
    }
}

/// A tag.
#[derive(Debug, PartialEq, Eq)]
pub struct Tag {
    pub name: String,
    pub color: TagColor,
}

/// A tag by its name and colour.
pub type TagView = (Seq<char>, TagColor);

impl View for Tag {
    type V = TagView;

    open spec fn view(&self) -> TagView {
        (self.name@, self.color)
    }
}

impl Clone for Tag {
    fn clone(&self) -> (r: Tag)
        ensures
            r@ == self@,
    {
        Tag { name: self.name.clone(), color: self.color }
    }
}

/// Tags by their names and colours.
pub open spec fn tag_views(tags: Seq<Tag>) -> Seq<TagView> {
    tags.map_values(|t: Tag| t@)
}

/// How a tag is written: its name, and the number of its colour on a second line.
pub open spec fn written(t: TagView) -> Seq<char> {
    if t.1.number() == 0 {
        t.0
    } else {
        t.0.push('\n') + text::decimal(t.1.number() as nat)
    }
}

/// What a written tag says: the first line is the name, which must not be empty, and the rest
/// the number of the colour. A rest that is no number means no colour.
pub open spec fn parsed(s: Seq<char>) -> Option<TagView> {
    let end = text::find_from(s, '\n', 0);
    if s.take(end).len() == 0 {
        None
    } else if end < s.len() {
        Some(
            (
                s.take(end),
                match text::small_number(s.skip(end + 1)) {
                    Some(n) => TagColor::of_number(n),
                    None => TagColor::NoColor,
                },
            ),
        )
    } else {
        Some((s, TagColor::NoColor))
    }
}

/// What a list of written tags says; what is no tag is passed over.
pub open spec fn parsed_all(s: Seq<Seq<char>>) -> Seq<TagView>
    decreases s.len(),
{
    if s.len() == 0 {
        Seq::empty()
    } else {
        let rest = parsed_all(s.drop_last());
        match parsed(s.last()) {
            Some(t) => rest.push(t),
            None => rest,
        }
    }
}

/// Reads a written tag.
pub fn parse_tag_string(s: &str) -> (r: Option<Tag>)
    ensures
        match r {
            Some(t) => parsed(s@) == Some(t@),
            None => parsed(s@) is None,
        },
{
    let chars = chars_of(s);
    let n = chars.len();
    let end = find_char(&chars, '\n', 0);
    let head = chars_copy(&chars, 0, end);
    assert(head@ =~= s@.take(end as int));
    if head.len() == 0 {
        return None;
    }
    let name = string_of(head.as_slice());
    if end < n {
        let tail = chars_copy(&chars, end + 1, n);
        assert(tail@ =~= s@.skip(end + 1));
        let number = parse_u8(string_of(tail.as_slice()).as_str());
        let color = match number {
            Some(k) => TagColor::from_number(k),
            None => TagColor::NoColor,
        };
        Some(Tag { name, color })
    } else {
        assert(head@ =~= s@);
        Some(Tag { name, color: TagColor::NoColor })
    }
}

/// Writes a tag.
pub fn tag_string(tag: &Tag) -> (r: String)
    ensures
        r@ == written(tag@),
{
    let n = tag.color.to_number();
    let mut out = tag.name.clone();
    if n != 0 {
        out.push('\n');
        push_decimal(&mut out, n as u64);
    }
    out
}

/// The tags that a list of written tags holds.
pub fn parse_tag_strings(strings: &Vec<String>) -> (r: Vec<Tag>)
    ensures
        tag_views(r@) == parsed_all(text::text_views(strings@)),
{
    let ghost all = text::text_views(strings@);
    let mut out: Vec<Tag> = Vec::new();
    let mut i: usize = 0;
    assert(tag_views(out@) =~= parsed_all(all.take(0)));
    while i < strings.len()
        invariant
            i <= strings@.len(),
            all == text::text_views(strings@),
            tag_views(out@) == parsed_all(all.take(i as int)),
        decreases strings@.len() - i,
    {
        proof {
            assert(all.take(i + 1).drop_last() =~= all.take(i as int));
            assert(all.take(i + 1).last() == strings@[i as int]@);
        }
        let ghost before = tag_views(out@);
        if let Some(tag) = parse_tag_string(strings[i].as_str()) {
            let ghost t = tag@;
            out.push(tag);
            assert(tag_views(out@) =~= before.push(t));
        }
        i += 1;
    }
    assert(all.take(i as int) =~= all);
    out
}

/// The tags in the bytes that are stored with a file: none where nothing is stored that can be
/// read as a list of texts.
pub open spec fn tags_in(data: Option<Seq<u8>>) -> Seq<TagView> {
    match data {
        Some(d) => match property_list::strings_in(d) {
            Some(s) => parsed_all(s),
            None => Seq::empty(),
        },
        None => Seq::empty(),
    }
}

/// The tags in the bytes that are stored with a file.
pub fn read_tags(data: &Option<Vec<u8>>) -> (r: Vec<Tag>)
    ensures
        tag_views(r@) == tags_in(
            match *data {
                Some(d) => Some(d@),
                None => None,
            },
        ),
{
    if let Some(d) = data {
        if let Some(strings) = read_strings(d.as_slice()) {
            return parse_tag_strings(&strings);
        }
    }
    let none: Vec<Tag> = Vec::new();
    assert(tag_views(none@) =~= Seq::empty());
    none
}

/// What is to be done to store tags with a file.
#[derive(Debug)]
pub enum TagWrite {
    /// Remove what is stored.
    Remove,
    /// Store these bytes.
    Store(Vec<u8>),
    /// Leave everything as it is.
    Keep,
}

/// How all tags are written.
pub open spec fn written_all(tags: Seq<TagView>) -> Seq<Seq<char>> {
    tags.map_values(|t: TagView| written(t))
}

/// Decides what is to be done to store tags with a file.
pub fn write_tags(tags: &Vec<Tag>) -> (r: TagWrite)
    ensures
        match r {
            TagWrite::Remove => tags@.len() == 0,
            TagWrite::Store(b) => {
                &&& tags@.len() > 0
                &&& property_list::plist_bytes(written_all(tag_views(tags@))) == Some(b@)
                &&& property_list::strings_in(b@) == Some(written_all(tag_views(tags@)))
            },
            TagWrite::Keep => tags@.len() > 0 && property_list::plist_bytes(
                written_all(tag_views(tags@)),
            ) is None,
        },
{
    if tags.len() == 0 {
        return TagWrite::Remove;
    }
    let ghost all = written_all(tag_views(tags@));
    let mut strings: Vec<String> = Vec::new();
    let mut i: usize = 0;
    assert(text::text_views(strings@) =~= all.take(0));
    while i < tags.len()
        invariant
            i <= tags@.len(),
            all == written_all(tag_views(tags@)),
            text::text_views(strings@) == all.take(i as int),
        decreases tags@.len() - i,
    {
        let ghost before = text::text_views(strings@);
        let s = tag_string(&tags[i]);
        let ghost t = s@;
        strings.push(s);
        i += 1;
        assert(text::text_views(strings@) =~= before.push(t));
        assert(text::text_views(strings@) =~= all.take(i as int));
    }
    assert(all.take(i as int) =~= all);
    match write_strings(&strings) {
        Some(b) => TagWrite::Store(b),
        None => TagWrite::Keep,
    }
}

/// Every colour is the colour of its number.
pub proof fn color_number_reads_back(c: TagColor)
    ensures
        TagColor::of_number(c.number()) == c,
{
}

proof fn lemma_find_in_name(name: Seq<char>, tail: Seq<char>, i: int)
    requires
        0 <= i <= name.len(),
        !name.contains('\n'),
    ensures
        text::find_from(name.push('\n') + tail, '\n', i) == name.len(),
        text::find_from(name, '\n', i) == name.len(),
    decreases name.len() - i,
{
    let s = name.push('\n') + tail;
    if i < name.len() {
        assert(name[i] != '\n');
        assert(s[i] == name[i]);
        lemma_find_in_name(name, tail, i + 1);
    } else {
        assert(s[i] == '\n');
    }
}

/// Reading a written tag gives the tag back. A name that is empty or holds a line break cannot
/// be written.
pub proof fn written_tag_reads_back(t: TagView)
    requires
        t.0.len() > 0,
        !t.0.contains('\n'),
    ensures
        parsed(written(t)) == Some(t),
{
    let n = t.1.number();
    let tail = text::decimal(n as nat);
    lemma_find_in_name(t.0, tail, 0);
    if n == 0 {
        assert(t.0.take(t.0.len() as int) =~= t.0);
    } else {
        let s = written(t);
        text::digits_read_back(n as nat);
        assert(s.take(t.0.len() as int) =~= t.0);
        assert(s.skip((t.0.len() + 1) as int) =~= tail);
    }
}

proof fn lemma_all_read_back(tags: Seq<TagView>)
    requires
        forall|i: int|
            0 <= i < tags.len() ==> (#[trigger] tags[i]).0.len() > 0 && !tags[i].0.contains('\n'),
    ensures
        parsed_all(written_all(tags)) == tags,
    decreases tags.len(),
{
    let w = written_all(tags);
    if tags.len() > 0 {
        let rest = tags.drop_last();
        assert forall|i: int| 0 <= i < rest.len() implies (#[trigger] rest[i]).0.len() > 0
            && !rest[i].0.contains('\n') by {
            assert(rest[i] == tags[i]);
        }
        lemma_all_read_back(rest);
        assert(w.drop_last() =~= written_all(rest));
        assert(w.last() == written(tags.last()));
        assert(tags.last() == tags[tags.len() - 1]);
        written_tag_reads_back(tags.last());
        assert(rest.push(tags.last()) =~= tags);
    } else {
        assert(parsed_all(w) =~= tags);
    }
}

/// Tags that were stored with a file are read back as they were. Names that are empty or hold a
/// line break cannot be stored.
pub proof fn stored_tags_read_back(tags: Seq<TagView>, data: Seq<u8>)
    requires
        forall|i: int|
            0 <= i < tags.len() ==> (#[trigger] tags[i]).0.len() > 0 && !tags[i].0.contains('\n'),
        property_list::strings_in(data) == Some(written_all(tags)),
    ensures
        tags_in(Some(data)) == tags,
{
    lemma_all_read_back(tags);
}

/// No two colours have the same number, no number above 7 is that of a colour, and a tag without a
/// colour has the number 0.
pub proof fn color_numbers_are_those_of_the_system(n: u8)
    ensures
        n <= 7 ==> TagColor::of_number(n).number() == n,
        n > 7 ==> TagColor::of_number(n) == TagColor::NoColor,
        TagColor::NoColor.number() == 0,
        TagColor::of_number(1) == TagColor::Gray,
        TagColor::of_number(2) == TagColor::Green,
        TagColor::of_number(3) == TagColor::Purple,
        TagColor::of_number(4) == TagColor::Blue,
        TagColor::of_number(5) == TagColor::Yellow,
        TagColor::of_number(6) == TagColor::Red,
        TagColor::of_number(7) == TagColor::Orange,
{
}

/// A colour is drawn as what it is called: of the parts red, green and blue the one that it is named
/// after is the strongest, and gray and no colour are nearly without any.
pub proof fn colors_are_drawn_as_they_are_called()
    ensures
        ({
            let c = TagColor::Red.drawn();
            c.0 > c.1 && c.0 > c.2 && c == (255u8, 59u8, 48u8)
        }),
        ({
            let c = TagColor::Green.drawn();
            c.1 > c.0 && c.1 > c.2 && c == (52u8, 199u8, 89u8)
        }),
        ({
            let c = TagColor::Blue.drawn();
            c.2 > c.0 && c.2 > c.1 && c == (0u8, 122u8, 255u8)
        }),
        TagColor::Orange.drawn() == (255u8, 149u8, 0u8),
        TagColor::Yellow.drawn() == (255u8, 204u8, 0u8),
        TagColor::Purple.drawn() == (175u8, 82u8, 222u8),
        TagColor::Gray.drawn() == (142u8, 142u8, 147u8),
        TagColor::NoColor.drawn() == TagColor::Gray.drawn(),
{
}

/// A stored tag is its name, and behind a line feed the number of its colour where it has one. It is
/// read by the first line feed: what stands before it is the name, and what stands behind it the
/// number, or no colour where it is none. A tag without a name is none.
pub proof fn stored_tag_is_name_and_number(name: Seq<char>, rest: Seq<char>, n: u8)
    requires
        name.len() > 0,
        !name.contains('\n'),
    ensures
        1 <= n <= 7 ==> written((name, TagColor::of_number(n))) == name + seq!['\n']
            + text::decimal(n as nat),
        written((name, TagColor::NoColor)) == name,
        parsed(name) == Some((name, TagColor::NoColor)),
        parsed(name + seq!['\n'] + text::decimal(n as nat)) == Some((name, TagColor::of_number(n))),
        text::small_number(rest) is None ==> parsed(name + seq!['\n'] + rest) == Some(
            (name, TagColor::NoColor),
        ),
        parsed(seq!['\n'] + rest) is None,
        parsed(Seq::empty()) is None,
{
    lemma_find_in_name(name, rest, 0);
    lemma_find_in_name(name, text::decimal(n as nat), 0);
    text::digits_read_back(n as nat);
    let d = text::decimal(n as nat);
    let a = name + seq!['\n'] + d;
    let b = name + seq!['\n'] + rest;
    assert(a =~= name.push('\n') + d);
    assert(b =~= name.push('\n') + rest);
    assert(name.take(name.len() as int) =~= name);
    assert(a.take(name.len() as int) =~= name);
    assert(b.take(name.len() as int) =~= name);
    assert(a.skip((name.len() + 1) as int) =~= d);
    assert(b.skip((name.len() + 1) as int) =~= rest);
    let c = seq!['\n'] + rest;
    assert(c[0] == '\n');
}

/// Stored tags are read in their order, and what is no tag is left out.
pub proof fn tags_keep_their_order(a: Seq<Seq<char>>, b: Seq<Seq<char>>, s: Seq<char>)
    ensures
        parsed_all(a + b) == parsed_all(a) + parsed_all(b),
        parsed(s) is Some ==> parsed_all(seq![s]) == seq![parsed(s)->0],
        parsed(s) is None ==> parsed_all(seq![s]).len() == 0,
        tags_in(None).len() == 0,
    decreases b.len(),
{
    reveal_with_fuel(parsed_all, 2);
    assert(seq![s].drop_last() =~= Seq::<Seq<char>>::empty());
    assert(parsed(s) is Some ==> parsed_all(seq![s]) =~= seq![parsed(s)->0]);
    if b.len() == 0 {
        assert(a + b =~= a);
        assert(parsed_all(a) + parsed_all(b) =~= parsed_all(a));
    } else {
        tags_keep_their_order(a, b.drop_last(), s);
        assert((a + b).drop_last() =~= a + b.drop_last());
        assert((a + b).last() == b.last());
        assert(parsed_all(a + b) =~= parsed_all(a) + parsed_all(b));
    }
}

} // verus!
