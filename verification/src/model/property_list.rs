//! Lists of texts in property lists.
//!
//! A property list can hold dates, which are read as texts. Not every date that can be stored can
//! be written as a text, so the dates are looked at before anything is read.

use vstd::prelude::*;

use crate::path::slice_copy;
use crate::text;
use crate::text::{chars_copy, chars_of, string_of};

verus! {

/// The bits, in double precision, of the seconds from the beginning of the year 0 to that of 2001.
pub const SECONDS_TO_YEAR_0: u64 = 0x422D_6788_8900_0000;

/// The bits, in double precision, of the seconds from the beginning of 2001 to that of the year
/// 10000.
pub const SECONDS_TO_YEAR_10000: u64 = 0x424D_62D2_3C80_0000;

/// The bit that makes a number in double precision negative.
pub const SIGN: u64 = 0x8000_0000_0000_0000;

/// The byte in front of a date in a binary property list.
pub const DATE_MARK: u8 = 0x33;

/// The length of the end of a binary property list.
pub const TRAILER: usize = 32;

/// The bytes of a text.
pub open spec fn bytes_of(s: Seq<char>) -> Seq<u8> {
    vstd::utf8::encode_utf8(s)
}

/// Whether some bytes stand at a place.
pub open spec fn holds_at(d: Seq<u8>, at: int, what: Seq<u8>) -> bool {
    0 <= at && at + what.len() <= d.len() && d.subrange(at, at + what.len()) == what
}

/// Whether a property list is a binary one.
pub open spec fn is_binary(d: Seq<u8>) -> bool {
    holds_at(d, 0, bytes_of("bplist00"@))
}

/// The number in `n` bytes, the highest first.
pub open spec fn number_at(d: Seq<u8>, at: int, n: int) -> int
    decreases n,
{
    if n <= 0 {
        0
    } else {
        number_at(d, at, n - 1) * 256 + d[at + n - 1]
    }
}

/// Whether a time is in the years 0 to 9999. It is given by the bits, in double precision, of the
/// seconds since 2001: of two numbers with one sign the one farther from 0 has the larger bits.
pub open spec fn is_writable_time(bits: int) -> bool {
    if bits >= SIGN {
        bits - SIGN <= SECONDS_TO_YEAR_0
    } else {
        bits < SECONDS_TO_YEAR_10000
    }
}

/// Whether the object at a place is no date that cannot be written.
pub open spec fn is_writable_object(d: Seq<u8>, at: int) -> bool {
    at + 9 <= d.len() && d[at] == DATE_MARK ==> is_writable_time(number_at(d, at + 1, 8))
}

/// How many bytes the place of an object takes in a binary property list.
pub open spec fn place_size(d: Seq<u8>) -> int {
    d[d.len() - TRAILER + 6] as int
}

/// How many objects a binary property list holds.
pub open spec fn object_count(d: Seq<u8>) -> int {
    number_at(d, d.len() - TRAILER + 8, 8)
}

/// Where a binary property list holds the places of its objects.
pub open spec fn places_start(d: Seq<u8>) -> int {
    number_at(d, d.len() - TRAILER + 24, 8)
}

/// Whether a binary property list holds the places of all its objects.
pub open spec fn has_places(d: Seq<u8>) -> bool {
    &&& d.len() >= TRAILER
    &&& 1 <= place_size(d) <= 8
    &&& places_start(d) + object_count(d) * place_size(d) <= d.len() - TRAILER
}

/// The place of an object of a binary property list.
pub open spec fn object_place(d: Seq<u8>, k: int) -> int {
    number_at(d, places_start(d) + k * place_size(d), place_size(d))
}

/// The number of the outermost object of a binary property list.
pub open spec fn root_number(d: Seq<u8>) -> int {
    number_at(d, d.len() - TRAILER + 16, 8)
}

/// Where the outermost object of a binary property list stands.
pub open spec fn root_place(d: Seq<u8>) -> int {
    object_place(d, root_number(d))
}

/// Whether the outermost object of a binary property list can be found.
pub open spec fn has_root(d: Seq<u8>) -> bool {
    has_places(d) && root_number(d) < object_count(d) && root_place(d) < d.len() - TRAILER
}

/// In how many bytes behind the mark of a list its length stands, with a byte in front; 0 where
/// it is in the mark.
pub open spec fn length_size(d: Seq<u8>, at: int) -> int {
    if d[at] % 16 != 15 {
        0
    } else if d[at + 1] % 4 == 0 {
        1
    } else if d[at + 1] % 4 == 1 {
        2
    } else if d[at + 1] % 4 == 2 {
        4
    } else {
        8
    }
}

/// How many items a list in a binary property list has.
pub open spec fn list_length(d: Seq<u8>, at: int) -> int {
    if length_size(d, at) == 0 {
        (d[at] % 16) as int
    } else {
        number_at(d, at + 2, length_size(d, at))
    }
}

/// Where the numbers of the items of a list stand.
pub open spec fn list_start(d: Seq<u8>, at: int) -> int {
    if length_size(d, at) == 0 {
        at + 1
    } else {
        at + 2 + length_size(d, at)
    }
}

/// How many bytes the number of an object takes in a binary property list.
pub open spec fn number_size(d: Seq<u8>) -> int {
    d[d.len() - TRAILER + 7] as int
}

/// Whether the object at a place is a list with the numbers of all its items.
pub open spec fn is_list(d: Seq<u8>, at: int) -> bool {
    &&& d[at] / 16 == 10
    &&& 1 <= number_size(d) <= 8
    &&& at + list_length(d, at) * number_size(d) <= d.len() - TRAILER
}

/// The number of an item of a list.
pub open spec fn item_number(d: Seq<u8>, at: int, k: int) -> int {
    number_at(d, list_start(d, at) + k * number_size(d), number_size(d))
}

/// Whether an item of a list is no date that cannot be written.
pub open spec fn is_writable_item(d: Seq<u8>, at: int, k: int) -> bool {
    item_number(d, at, k) < object_count(d) ==> is_writable_object(
        d,
        object_place(d, item_number(d, at, k)),
    )
}

/// Whether neither the outermost object of a binary property list nor, where that is a list, any
/// of its items is a date that cannot be written.
pub open spec fn has_writable_list(d: Seq<u8>) -> bool {
    has_root(d) ==> {
        let at = root_place(d);
        &&& is_writable_object(d, at)
        &&& is_list(d, at) ==> forall|k: int|
            0 <= k < list_length(d, at) ==> #[trigger] is_writable_item(d, at, k)
    }
}

/// Whether a byte parts the name of an element from what follows.
pub open spec fn is_blank(b: u8) -> bool {
    b == 32 || b == 9 || b == 10 || b == 13
}

/// Where a name in XML ends: at a blank, or at `>` outside of quotes.
pub open spec fn name_end(d: Seq<u8>, i: int, quote: u8) -> int
    decreases d.len() - i,
{
    if i < 0 || i >= d.len() {
        d.len() as int
    } else if is_blank(d[i]) || (quote == 0 && d[i] == 62) {
        i
    } else if quote == 0 && (d[i] == 34 || d[i] == 39) {
        name_end(d, i + 1, d[i])
    } else if d[i] == quote {
        name_end(d, i + 1, 0)
    } else {
        name_end(d, i + 1, quote)
    }
}

/// Where a tag in XML ends: at `>` outside of quotes.
pub open spec fn tag_end(d: Seq<u8>, i: int, quote: u8) -> int
    decreases d.len() - i,
{
    if i < 0 || i >= d.len() {
        d.len() as int
    } else if quote == 0 && d[i] == 62 {
        i
    } else if quote == 0 && (d[i] == 34 || d[i] == 39) {
        tag_end(d, i + 1, d[i])
    } else if d[i] == quote {
        tag_end(d, i + 1, 0)
    } else {
        tag_end(d, i + 1, quote)
    }
}

/// Whether a name in XML is that of dates, with or without a prefix, and not at the end of one.
pub open spec fn names_dates(d: Seq<u8>, start: int, end: int) -> bool {
    &&& end - start >= 4
    &&& d[start] != 47
    &&& d[end - 4] == 100 && d[end - 3] == 97 && d[end - 2] == 116 && d[end - 1] == 101
    &&& end - start == 4 || d[end - 5] == 58
}

/// The first place of some bytes at or after `i`, and the length where they are not there.
pub open spec fn find_bytes(d: Seq<u8>, i: int, what: Seq<u8>) -> int
    decreases d.len() - i,
{
    if i < 0 || i >= d.len() || holds_at(d, i, what) {
        if 0 <= i < d.len() {
            i
        } else {
            d.len() as int
        }
    } else {
        find_bytes(d, i + 1, what)
    }
}

/// Where a declaration that starts at a place inside a document type ends, more than the length of
/// the bytes where it does not. The end of entities, attributes and notations is the first `>`
/// that is not quoted.
pub open spec fn declaration_end(d: Seq<u8>, i: int) -> int {
    if holds_at(d, i, bytes_of("<?"@)) {
        find_bytes(d, i + 2, bytes_of("?>"@)) + 2
    } else if holds_at(d, i, bytes_of("<!--"@)) {
        find_bytes(d, i + 4, bytes_of("-->"@)) + 3
    } else if holds_at(d, i, bytes_of("<!ENTITY"@)) {
        tag_end(d, i + 8, 0) + 1
    } else if holds_at(d, i, bytes_of("<!ATTLIST"@)) {
        tag_end(d, i + 9, 0) + 1
    } else if holds_at(d, i, bytes_of("<!NOTATION"@)) {
        tag_end(d, i + 10, 0) + 1
    } else {
        find_bytes(d, i + 1, bytes_of(">"@)) + 1
    }
}

/// Where a document type ends that is read from a place among its declarations on: behind the first
/// `>` after the `]` that closes them. More than the length of the bytes where it does not end.
pub open spec fn subset_end(d: Seq<u8>, i: int) -> int
    decreases d.len() - i,
{
    if i < 0 || i >= d.len() {
        d.len() as int + 1
    } else if d[i] == 93 {
        find_bytes(d, i + 1, bytes_of(">"@)) + 1
    } else if d[i] != 60 {
        subset_end(d, i + 1)
    } else if i < declaration_end(d, i) <= d.len() {
        subset_end(d, declaration_end(d, i))
    } else {
        d.len() as int + 1
    }
}

/// Where a document type ends that is read from a place before its declarations on, inside of a
/// quotation or not: behind the first `>` that is not quoted, or where its declarations end it. More
/// than the length of the bytes where it does not end.
pub open spec fn doctype_end(d: Seq<u8>, i: int, quote: u8) -> int
    decreases d.len() - i,
{
    if i < 0 || i >= d.len() {
        d.len() as int + 1
    } else if quote == 0 && d[i] == 62 {
        i + 1
    } else if quote == 0 && d[i] == 91 {
        subset_end(d, i + 1)
    } else if quote == 0 && (d[i] == 34 || d[i] == 39) {
        doctype_end(d, i + 1, d[i])
    } else if d[i] == quote {
        doctype_end(d, i + 1, 0)
    } else {
        doctype_end(d, i + 1, quote)
    }
}

/// Where a comment, character data, an instruction or a document type that starts at a place ends;
/// the place itself where none starts there.
pub open spec fn aside_end(d: Seq<u8>, i: int) -> int {
    if holds_at(d, i, bytes_of("<!--"@)) {
        find_bytes(d, i + 4, bytes_of("-->"@)) + 3
    } else if holds_at(d, i, bytes_of("<![CDATA["@)) {
        find_bytes(d, i + 9, bytes_of("]]>"@)) + 3
    } else if holds_at(d, i, bytes_of("<?"@)) {
        find_bytes(d, i + 2, bytes_of("?>"@)) + 2
    } else if holds_at(d, i, bytes_of("<!D"@)) || holds_at(d, i, bytes_of("<!d"@)) {
        doctype_end(d, i + 3, 0)
    } else {
        i
    }
}

/// Where what stands in the element of a text ends: at the next end of an element. Comments,
/// character data, instructions and document types are passed over; no other element belongs there.
pub open spec fn content_end(d: Seq<u8>, i: int) -> Option<int>
    decreases d.len() - i,
{
    if i < 0 || i >= d.len() {
        None
    } else if d[i] != 60 {
        content_end(d, i + 1)
    } else if holds_at(d, i, bytes_of("</"@)) {
        Some(i)
    } else if i < aside_end(d, i) <= d.len() {
        content_end(d, aside_end(d, i))
    } else {
        None
    }
}

/// The property list of one text that is written in XML already.
pub open spec fn text_list(content: Seq<u8>) -> Seq<u8> {
    bytes_of("<array><string>"@) + content + bytes_of("</string></array>"@)
}

/// Whether a property list is one text that is written in XML.
pub open spec fn is_text_list(d: Seq<u8>) -> bool {
    &&& holds_at(d, 0, bytes_of("<array><string>"@))
    &&& content_end(d, bytes_of("<array><string>"@).len() as int) == Some(
        d.len() - bytes_of("</string></array>"@).len(),
    )
    &&& holds_at(
        d,
        d.len() - bytes_of("</string></array>"@).len(),
        bytes_of("</string></array>"@),
    )
}

/// What `plist::from_bytes` reads from a property list as a list of texts, where it is one.
pub uninterp spec fn plist_strings(data: Seq<u8>) -> Option<Seq<Seq<char>>>;

/// The text in the element that starts at a place.
pub open spec fn element_text(d: Seq<u8>, i: int) -> Option<Seq<char>> {
    let start = tag_end(d, i + 1, 0) + 1;
    match content_end(d, start) {
        Some(end) => {
            let list = text_list(d.subrange(start, end));
            match plist_strings(list) {
                Some(s) => if is_text_list(list) && s.len() == 1 {
                    Some(s[0])
                } else {
                    None
                },
                None => None,
            }
        },
        None => None,
    }
}

/// The number in two digits.
pub open spec fn two_digits(s: Seq<char>, at: int) -> int {
    (s[at] as int - '0' as int) * 10 + (s[at + 1] as int - '0' as int)
}

/// By how many minutes a time is ahead of UTC.
pub open spec fn minutes_ahead(s: Seq<char>) -> int {
    let n = s.len() as int;
    if s.last() == 'Z' || s.last() == 'z' {
        0
    } else if s[n - 6] == '-' {
        -(two_digits(s, n - 5) * 60 + two_digits(s, n - 2))
    } else {
        two_digits(s, n - 5) * 60 + two_digits(s, n - 2)
    }
}

/// Whether a date stays between the years 0 and 9999 in UTC. Only on the first and on the last day
/// the time zone can take it out of them. The date is in the form of RFC 3339, such as
/// `2001-01-01T00:00:00+09:00`; any text that is too short for that is no date.
pub open spec fn stays_in_years(s: Seq<char>) -> bool {
    if s.len() < 20 {
        true
    } else {
        let minutes = two_digits(s, 11) * 60 + two_digits(s, 14) - minutes_ahead(s);
        &&& s.take(10) == "0000-01-01"@ ==> minutes >= 0
        &&& s.take(10) == "9999-12-31"@ ==> minutes < 24 * 60
    }
}

/// Whether the element that starts at a place is no date, or a date that can be written.
pub open spec fn is_writable_element(d: Seq<u8>, i: int) -> bool {
    names_dates(d, i + 1, name_end(d, i + 1, 0)) ==> match element_text(d, i) {
        Some(s) => stays_in_years(s),
        None => false,
    }
}

/// Whether no element, and nothing that looks like one, is a date that cannot be written.
pub open spec fn has_writable_elements(d: Seq<u8>) -> bool {
    forall|i: int| 0 <= i < d.len() && (#[trigger] d[i]) == 60 ==> is_writable_element(d, i)
}

/// Whether the name of what looks like a date that cannot be written ends behind a place.
pub open spec fn ends_unwritable_name(d: Seq<u8>, k: int, n: int) -> bool {
    exists|i: int|
        0 <= i < n && (#[trigger] d[i]) == 60 && !is_writable_element(d, i) && name_end(
            d,
            i + 1,
            0,
        ) == k + 1
}

/// A property list in which nothing that looks like a date that cannot be written bears the name
/// of a date, but one that no element has.
pub open spec fn masked(d: Seq<u8>) -> Seq<u8> {
    Seq::new(
        d.len(),
        |k: int|
            if ends_unwritable_name(d, k, d.len() as int) {
                95u8
            } else {
                d[k]
            },
    )
}

/// Whether all dates of a property list can be written as texts. What looks like a date that
/// cannot be written, but stands in a comment or the like, is no date: then the list can be read
/// without the name as well.
pub open spec fn is_readable(d: Seq<u8>) -> bool {
    ||| is_text_list(d)
    ||| is_binary(d) && has_writable_list(d)
    ||| !is_binary(d) && has_writable_elements(d)
    ||| !is_binary(d) && !is_binary(masked(d)) && has_writable_elements(masked(d))
        && plist_strings(masked(d)) is Some
}

/// `plist::from_bytes` for a list of strings: the texts of a property list, and nothing where the
/// bytes are no list of texts. A function of the bytes alone.
///
/// It reads a date as a text, and panics on one whose year is not between 0 and 9999 in UTC.
/// `requires` leaves those out. In a binary property list only the outermost object and its items
/// come to be read. In any other a date is an element with the name `date`, or with a prefix and
/// that name, and what stands in it is read as that of an element `string` is; so no date is read
/// from the list of one such element. An element that has no known name is an error, so where
/// another name in place of `date` gives no error, what bore it was none.
#[verifier::external_body]
fn decode_strings(data: &[u8]) -> (r: Option<Vec<String>>)
    requires
        is_readable(data@),
    ensures
        match r {
            Some(v) => plist_strings(data@) == Some(text::text_views(v@)),
            None => plist_strings(data@) is None,
        },
{
    plist::from_bytes::<Vec<String>>(data).ok()
}

/// What `plist::to_writer_binary` writes for a list of texts, where it writes something.
pub uninterp spec fn plist_bytes(strings: Seq<Seq<char>>) -> Option<Seq<u8>>;

/// `plist::to_writer_binary` for a list of strings: the bytes of a binary property list, a
/// function of the texts alone. The objects in it are the list and its texts, so none is a date.
/// Reading it with `plist::from_bytes` gives the texts back.
#[verifier::external_body]
fn encode_strings(strings: &Vec<String>) -> (r: Option<Vec<u8>>)
    ensures
        match r {
            Some(b) => {
                &&& plist_bytes(text::text_views(strings@)) == Some(b@)
                &&& is_readable(b@)
                &&& plist_strings(b@) == Some(text::text_views(strings@))
            },
            None => plist_bytes(text::text_views(strings@)) is None,
        },
{
    let mut buf: Vec<u8> = Vec::new();
    match plist::to_writer_binary(&mut buf, strings) {
        Ok(()) => Some(buf),
        Err(_) => None,
    }
}

/// The texts in a property list: none where it is no list of texts or holds a date that cannot be
/// written.
pub open spec fn strings_in(d: Seq<u8>) -> Option<Seq<Seq<char>>> {
    if is_readable(d) {
        plist_strings(d)
    } else {
        None
    }
}

/// The texts in a property list.
pub fn read_strings(data: &[u8]) -> (r: Option<Vec<String>>)
    ensures
        match r {
            Some(v) => strings_in(data@) == Some(text::text_views(v@)),
            None => strings_in(data@) is None,
        },
{
    if readable(data) {
        decode_strings(data)
    } else {
        None
    }
}

/// The property list of some texts.
pub fn write_strings(strings: &Vec<String>) -> (r: Option<Vec<u8>>)
    ensures
        match r {
            Some(b) => {
                &&& plist_bytes(text::text_views(strings@)) == Some(b@)
                &&& strings_in(b@) == Some(text::text_views(strings@))
            },
            None => plist_bytes(text::text_views(strings@)) is None,
        },
{
    encode_strings(strings)
}

/// 256 to the power of `n`.
spec fn byte_power(n: int) -> int
    decreases n,
{
    if n <= 0 {
        1
    } else {
        byte_power(n - 1) * 256
    }
}

proof fn lemma_number_fits(d: Seq<u8>, at: int, n: int)
    requires
        0 <= at,
        0 <= n,
        at + n <= d.len(),
    ensures
        0 <= number_at(d, at, n) < byte_power(n),
    decreases n,
{
    if n > 0 {
        lemma_number_fits(d, at, n - 1);
    }
}

proof fn lemma_small_number(d: Seq<u8>, at: int, n: int)
    requires
        0 <= at,
        0 <= n <= 8,
        at + n <= d.len(),
    ensures
        0 <= number_at(d, at, n) <= u64::MAX,
{
    lemma_number_fits(d, at, n);
    reveal_with_fuel(byte_power, 9);
}

/// The number in `n` bytes, the highest first.
fn read_number(d: &[u8], at: usize, n: usize) -> (r: u64)
    requires
        at + n <= d@.len(),
        n <= 8,
    ensures
        r == number_at(d@, at as int, n as int),
{
    let len: usize = d.len();
    let mut r: u64 = 0;
    let mut i: usize = 0;
    while i < n
        invariant
            i <= n <= 8,
            at + n <= len == d@.len(),
            r == number_at(d@, at as int, i as int),
        decreases n - i,
    {
        proof {
            lemma_small_number(d@, at as int, i + 1);
        }
        r = r * 256 + d[at + i] as u64;
        i += 1;
    }
    r
}

/// Whether the object at a place is no date that cannot be written.
fn writable_object(d: &[u8], at: u64) -> (r: bool)
    ensures
        r == is_writable_object(d@, at as int),
{
    if d.len() < 9 || at > (d.len() - 9) as u64 {
        return true;
    }
    let at = at as usize;
    if d[at] != DATE_MARK {
        return true;
    }
    let bits = read_number(d, at + 1, 8);
    if bits >= SIGN {
        bits - SIGN <= SECONDS_TO_YEAR_0
    } else {
        bits < SECONDS_TO_YEAR_10000
    }
}

/// Whether some bytes stand at a place.
fn stands_at(d: &[u8], at: usize, what: &[u8]) -> (r: bool)
    ensures
        r == holds_at(d@, at as int, what@),
{
    let n: usize = what.len();
    let len: usize = d.len();
    if at > len || len - at < n {
        return false;
    }
    let mut k: usize = 0;
    while k < n
        invariant
            k <= n == what@.len(),
            at + n <= len == d@.len(),
            forall|j: int| 0 <= j < k ==> d@[at + j] == what@[j],
        decreases n - k,
    {
        if d[at + k] != what[k] {
            assert(d@.subrange(at as int, at + n)[k as int] != what@[k as int]);
            return false;
        }
        k += 1;
    }
    assert(d@.subrange(at as int, at + n) =~= what@);
    true
}

/// Whether a property list is a binary one.
fn binary(d: &[u8]) -> (r: bool)
    ensures
        r == is_binary(d@),
{
    stands_at(d, 0, "bplist00".as_bytes())
}

/// The place of an object of a binary property list.
fn read_place(d: &[u8], k: u64) -> (r: u64)
    requires
        has_places(d@),
        k < object_count(d@),
    ensures
        r == object_place(d@, k as int),
{
    let end: usize = d.len() - TRAILER;
    let size: usize = d[end + 6] as usize;
    let start = read_number(d, end + 24, 8);
    let ghost count = object_count(d@);
    assert(size == place_size(d@) && start == places_start(d@));
    assert((k + 1) * size <= count * size && (k + 1) * size == k * size + size && k * size >= 0)
        by (nonlinear_arith)
        requires
            0 <= k < count,
            1 <= size,
    ;
    assert(k <= k * size) by (nonlinear_arith)
        requires
            0 <= k,
            1 <= size,
    ;
    let step: usize = k as usize * size;
    read_number(d, start as usize + step, size)
}

/// Whether a binary property list holds the places of all its objects.
fn places_fit(d: &[u8]) -> (r: bool)
    ensures
        r == has_places(d@),
{
    if d.len() < TRAILER {
        return false;
    }
    let end: usize = d.len() - TRAILER;
    let size: usize = d[end + 6] as usize;
    if size < 1 || size > 8 {
        return false;
    }
    let count = read_number(d, end + 8, 8);
    let start = read_number(d, end + 24, 8);
    assert(0 <= count * size <= 0xFFFF_FFFF_FFFF_FFFF * 8) by (nonlinear_arith)
        requires
            0 <= count <= 0xFFFF_FFFF_FFFF_FFFF,
            1 <= size <= 8,
    ;
    start as u128 + count as u128 * size as u128 <= end as u128
}

/// Whether neither the outermost object of a binary property list nor any of its items is a date
/// that cannot be written.
fn writable_list(d: &[u8]) -> (r: bool)
    ensures
        r == has_writable_list(d@),
{
    if !places_fit(d) {
        return true;
    }
    let end: usize = d.len() - TRAILER;
    let count = read_number(d, end + 8, 8);
    let root = read_number(d, end + 16, 8);
    if root >= count {
        return true;
    }
    let place = read_place(d, root);
    if place >= end as u64 {
        return true;
    }
    if !writable_object(d, place) {
        return false;
    }
    let at: usize = place as usize;
    let size: usize = d[end + 7] as usize;
    if d[at] / 16 != 10 || size < 1 || size > 8 {
        return true;
    }
    let low: u8 = d[at] % 16;
    let width: usize = if low != 15 {
        0
    } else {
        match d[at + 1] % 4 {
            0 => 1,
            1 => 2,
            2 => 4,
            _ => 8,
        }
    };
    assert(width == length_size(d@, at as int));
    let len: u64 = if width == 0 {
        low as u64
    } else {
        read_number(d, at + 2, width)
    };
    let start: usize = if width == 0 {
        at + 1
    } else {
        at + 2 + width
    };
    assert(0 <= len * size <= 0xFFFF_FFFF_FFFF_FFFF * 8) by (nonlinear_arith)
        requires
            0 <= len <= 0xFFFF_FFFF_FFFF_FFFF,
            1 <= size <= 8,
    ;
    if at as u128 + len as u128 * size as u128 > end as u128 {
        return true;
    }
    let all: usize = d.len();
    let mut from: usize = start;
    let mut k: u64 = 0;
    while k < len
        invariant
            k <= len,
            has_root(d@),
            at == root_place(d@),
            is_list(d@, at as int),
            end + TRAILER == all == d@.len(),
            count == object_count(d@),
            1 <= size <= 8,
            size == number_size(d@),
            len == list_length(d@, at as int),
            start == list_start(d@, at as int),
            start <= at + 10,
            from == start + k * size,
            at + len * size <= end,
            forall|j: int| 0 <= j < k ==> #[trigger] is_writable_item(d@, at as int, j),
        decreases len - k,
    {
        assert((k + 1) * size <= len * size && (k + 1) * size == k * size + size)
            by (nonlinear_arith)
            requires
                0 <= k < len,
                1 <= size,
        ;
        let item = read_number(d, from, size);
        assert(item == item_number(d@, at as int, k as int));
        if item < count {
            let object = read_place(d, item);
            if !writable_object(d, object) {
                assert(!is_writable_item(d@, at as int, k as int));
                return false;
            }
        }
        assert(is_writable_item(d@, at as int, k as int));
        from += size;
        k += 1;
    }
    true
}

/// Where a name in XML ends.
fn find_name_end(d: &[u8], i: usize) -> (r: usize)
    requires
        i <= d@.len(),
    ensures
        r == name_end(d@, i as int, 0),
        i <= r <= d@.len(),
{
    let mut k: usize = i;
    let mut quote: u8 = 0;
    while k < d.len()
        invariant
            i <= k <= d@.len(),
            name_end(d@, i as int, 0) == name_end(d@, k as int, quote),
        decreases d@.len() - k,
    {
        let b = d[k];
        if b == 32 || b == 9 || b == 10 || b == 13 || (quote == 0 && b == 62) {
            return k;
        }
        if quote == 0 && (b == 34 || b == 39) {
            quote = b;
        } else if b == quote {
            quote = 0;
        }
        k += 1;
    }
    k
}

/// Where a tag in XML ends.
fn find_tag_end(d: &[u8], i: usize) -> (r: usize)
    requires
        i <= d@.len(),
    ensures
        r == tag_end(d@, i as int, 0),
        i <= r <= d@.len(),
{
    let mut k: usize = i;
    let mut quote: u8 = 0;
    while k < d.len()
        invariant
            i <= k <= d@.len(),
            tag_end(d@, i as int, 0) == tag_end(d@, k as int, quote),
        decreases d@.len() - k,
    {
        let b = d[k];
        if quote == 0 && b == 62 {
            return k;
        }
        if quote == 0 && (b == 34 || b == 39) {
            quote = b;
        } else if b == quote {
            quote = 0;
        }
        k += 1;
    }
    k
}

/// The first place of some bytes at or after `i`.
fn find_place(d: &[u8], i: usize, what: &[u8]) -> (r: usize)
    ensures
        r == find_bytes(d@, i as int, what@),
        r <= d@.len(),
        r < d@.len() ==> i <= r && holds_at(d@, r as int, what@),
{
    let mut k: usize = i;
    while k < d.len()
        invariant
            i <= k,
            find_bytes(d@, i as int, what@) == find_bytes(d@, k as int, what@),
        decreases d@.len() - k,
    {
        if stands_at(d, k, what) {
            return k;
        }
        k += 1;
    }
    d.len()
}

/// The place behind the first of some bytes `skip` places after a place.
fn find_behind(d: &[u8], i: usize, skip: usize, what: &str, width: usize) -> (r: Option<usize>)
    requires
        i <= d@.len(),
        width > 0,
    ensures
        match r {
            Some(end) => end == find_bytes(d@, i + skip, bytes_of(what@)) + width && i < end
                <= d@.len(),
            None => find_bytes(d@, i + skip, bytes_of(what@)) + width > d@.len(),
        },
{
    let len: usize = d.len();
    if len - i <= skip {
        return None;
    }
    let at = find_place(d, i + skip, what.as_bytes());
    if len - at < width {
        return None;
    }
    Some(at + width)
}

/// The place behind the first `>` that is not quoted, `skip` places after a place.
fn find_behind_tag(d: &[u8], i: usize, skip: usize) -> (r: Option<usize>)
    requires
        i <= d@.len(),
    ensures
        match r {
            Some(end) => end == tag_end(d@, i + skip, 0) + 1 && i < end <= d@.len(),
            None => tag_end(d@, i + skip, 0) + 1 > d@.len(),
        },
{
    let len: usize = d.len();
    if len - i <= skip {
        return None;
    }
    let at = find_tag_end(d, i + skip);
    if at == len {
        return None;
    }
    Some(at + 1)
}

/// Where a declaration inside a document type ends, if it does.
fn find_declaration_end(d: &[u8], i: usize) -> (r: Option<usize>)
    requires
        i <= d@.len(),
    ensures
        match r {
            Some(end) => end == declaration_end(d@, i as int) && i < end <= d@.len(),
            None => declaration_end(d@, i as int) > d@.len(),
        },
{
    if stands_at(d, i, "<?".as_bytes()) {
        find_behind(d, i, 2, "?>", 2)
    } else if stands_at(d, i, "<!--".as_bytes()) {
        find_behind(d, i, 4, "-->", 3)
    } else if stands_at(d, i, "<!ENTITY".as_bytes()) {
        find_behind_tag(d, i, 8)
    } else if stands_at(d, i, "<!ATTLIST".as_bytes()) {
        find_behind_tag(d, i, 9)
    } else if stands_at(d, i, "<!NOTATION".as_bytes()) {
        find_behind_tag(d, i, 10)
    } else {
        find_behind(d, i, 1, ">", 1)
    }
}

/// Where a document type ends that is read from a place among its declarations on, if it does.
fn find_subset_end(d: &[u8], start: usize) -> (r: Option<usize>)
    ensures
        match r {
            Some(end) => end == subset_end(d@, start as int) && start < end <= d@.len(),
            None => subset_end(d@, start as int) > d@.len(),
        },
{
    let len: usize = d.len();
    let mut i: usize = start;
    while i < len
        invariant
            start <= i,
            len == d@.len(),
            subset_end(d@, start as int) == subset_end(d@, i as int),
        decreases len - i,
    {
        if d[i] == 93 {
            return find_behind(d, i, 1, ">", 1);
        } else if d[i] != 60 {
            i += 1;
        } else {
            match find_declaration_end(d, i) {
                Some(end) => {
                    i = end;
                },
                None => {
                    return None;
                },
            }
        }
    }
    None
}

/// Where a document type ends that is read from a place before its declarations on, if it does.
fn find_doctype_end(d: &[u8], start: usize) -> (r: Option<usize>)
    ensures
        match r {
            Some(end) => end == doctype_end(d@, start as int, 0) && start < end <= d@.len(),
            None => doctype_end(d@, start as int, 0) > d@.len(),
        },
{
    let len: usize = d.len();
    let mut i: usize = start;
    let mut quote: u8 = 0;
    while i < len
        invariant
            start <= i,
            len == d@.len(),
            doctype_end(d@, start as int, 0) == doctype_end(d@, i as int, quote),
        decreases len - i,
    {
        let b = d[i];
        if quote == 0 && b == 62 {
            return Some(i + 1);
        }
        if quote == 0 && b == 91 {
            return find_subset_end(d, i + 1);
        }
        if quote == 0 && (b == 34 || b == 39) {
            quote = b;
        } else if b == quote {
            quote = 0;
        }
        i += 1;
    }
    None
}

/// Where a comment, character data, an instruction or a document type that starts at a place ends,
/// if one starts there and ends.
fn find_aside_end(d: &[u8], i: usize) -> (r: Option<usize>)
    requires
        i <= d@.len(),
    ensures
        match r {
            Some(end) => end == aside_end(d@, i as int) && i < end <= d@.len(),
            None => !(i < aside_end(d@, i as int) <= d@.len()),
        },
{
    if stands_at(d, i, "<!--".as_bytes()) {
        find_behind(d, i, 4, "-->", 3)
    } else if stands_at(d, i, "<![CDATA[".as_bytes()) {
        find_behind(d, i, 9, "]]>", 3)
    } else if stands_at(d, i, "<?".as_bytes()) {
        find_behind(d, i, 2, "?>", 2)
    } else if stands_at(d, i, "<!D".as_bytes()) || stands_at(d, i, "<!d".as_bytes()) {
        if d.len() - i < 3 {
            None
        } else {
            find_doctype_end(d, i + 3)
        }
    } else {
        None
    }
}

/// Where what stands in the element of a text ends.
fn find_content_end(d: &[u8], start: usize) -> (r: Option<usize>)
    ensures
        match r {
            Some(e) => content_end(d@, start as int) == Some(e as int) && start <= e < d@.len(),
            None => content_end(d@, start as int) is None,
        },
{
    let len: usize = d.len();
    let mut i: usize = start;
    while i < len
        invariant
            start <= i,
            len == d@.len(),
            content_end(d@, start as int) == content_end(d@, i as int),
        decreases len - i,
    {
        if d[i] != 60 {
            i += 1;
        } else if stands_at(d, i, "</".as_bytes()) {
            return Some(i);
        } else {
            match find_aside_end(d, i) {
                Some(end) => {
                    i = end;
                },
                None => {
                    return None;
                },
            }
        }
    }
    None
}

/// Whether a property list is one text that is written in XML.
fn one_text(d: &[u8]) -> (r: bool)
    ensures
        r == is_text_list(d@),
{
    let front = "<array><string>".as_bytes();
    let back = "</string></array>".as_bytes();
    if !stands_at(d, 0, front) || d.len() < back.len() {
        return false;
    }
    let end: usize = d.len() - back.len();
    match find_content_end(d, front.len()) {
        Some(e) => e == end && stands_at(d, end, back),
        None => false,
    }
}

/// Appends bytes.
fn append_bytes(out: &mut Vec<u8>, b: &[u8])
    ensures
        final(out)@ == old(out)@ + b@,
{
    let ghost before = out@;
    let mut k: usize = 0;
    while k < b.len()
        invariant
            k <= b@.len(),
            out@ == before + b@.take(k as int),
        decreases b@.len() - k,
    {
        out.push(b[k]);
        k += 1;
        assert(out@ =~= before + b@.take(k as int));
    }
    assert(b@.take(k as int) =~= b@);
}

/// The text in the element that starts at a place.
fn read_element(d: &[u8], i: usize) -> (r: Option<String>)
    requires
        i < d@.len(),
    ensures
        match r {
            Some(s) => element_text(d@, i as int) == Some(s@),
            None => element_text(d@, i as int) is None,
        },
{
    let len: usize = d.len();
    let tag = find_tag_end(d, i + 1);
    if tag >= len {
        return None;
    }
    let end = match find_content_end(d, tag + 1) {
        Some(e) => e,
        None => {
            return None;
        },
    };
    let content = slice_copy(d, tag + 1, end);
    let mut list: Vec<u8> = Vec::new();
    append_bytes(&mut list, "<array><string>".as_bytes());
    append_bytes(&mut list, content.as_slice());
    append_bytes(&mut list, "</string></array>".as_bytes());
    assert(list@ =~= text_list(d@.subrange(tag + 1, end as int)));
    if !one_text(list.as_slice()) {
        return None;
    }
    match decode_strings(list.as_slice()) {
        Some(v) => {
            assert(text::text_views(v@).len() == v@.len());
            if v.len() == 1 {
                assert(text::text_views(v@)[0] == v@[0]@);
                Some(v[0].clone())
            } else {
                None
            }
        },
        None => None,
    }
}

/// The value of a digit.
fn digit_value(c: char) -> (r: i64)
    ensures
        r == c as int - '0' as int,
        -48 <= r <= 0x10FFFF,
{
    c as u32 as i64 - 48
}

/// The number in two digits.
fn read_two_digits(s: &Vec<char>, at: usize) -> (r: i64)
    requires
        at + 1 < s@.len(),
    ensures
        r == two_digits(s@, at as int),
        -1_000 <= r <= 20_000_000,
{
    let _len: usize = s.len();
    digit_value(s[at]) * 10 + digit_value(s[at + 1])
}

/// Whether a date stays between the years 0 and 9999 in UTC.
fn stays(s: &String) -> (r: bool)
    ensures
        r == stays_in_years(s@),
{
    let chars = chars_of(s.as_str());
    let n: usize = chars.len();
    if n < 20 {
        return true;
    }
    let ahead: i64 = if chars[n - 1] == 'Z' || chars[n - 1] == 'z' {
        0
    } else {
        let minutes = read_two_digits(&chars, n - 5) * 60 + read_two_digits(&chars, n - 2);
        if chars[n - 6] == '-' {
            -minutes
        } else {
            minutes
        }
    };
    let minutes = read_two_digits(&chars, 11) * 60 + read_two_digits(&chars, 14) - ahead;
    let front = chars_copy(&chars, 0, 10);
    assert(front@ =~= s@.take(10));
    let day = string_of(front.as_slice());
    let first = day == "0000-01-01".to_owned();
    let last = day == "9999-12-31".to_owned();
    !(first && minutes < 0) && !(last && minutes >= 24 * 60)
}

/// Whether the element that starts at a place is no date, or a date that can be written.
fn writable_element(d: &[u8], i: usize) -> (r: bool)
    requires
        i < d@.len(),
    ensures
        r == is_writable_element(d@, i as int),
{
    let _all: usize = d.len();
    let end = find_name_end(d, i + 1);
    let len: usize = end - (i + 1);
    if len < 4 || d[end - 4] != 100 || d[end - 3] != 97 || d[end - 2] != 116 || d[end - 1] != 101 {
        return true;
    }
    if d[i + 1] == 47 || (len > 4 && d[end - 5] != 58) {
        return true;
    }
    match read_element(d, i) {
        Some(s) => stays(&s),
        None => false,
    }
}

/// A property list in which nothing that looks like a date that cannot be written bears the name
/// of a date; and whether there was any.
fn mask(d: &[u8]) -> (r: (Vec<u8>, bool))
    ensures
        r.0@ == masked(d@),
        r.1 == !has_writable_elements(d@),
{
    let len: usize = d.len();
    let mut out = slice_copy(d, 0, len);
    let mut any = false;
    let mut i: usize = 0;
    proof {
        assert(out@ =~= d@);
    }
    while i < len
        invariant
            i <= len == d@.len(),
            out@.len() == len,
            any == exists|k: int| 0 <= k < i && (#[trigger] d@[k]) == 60 && !is_writable_element(d@, k),
            forall|k: int|
                0 <= k < len ==> #[trigger] out@[k] == if ends_unwritable_name(d@, k, i as int) {
                    95u8
                } else {
                    d@[k]
                },
        decreases len - i,
    {
        let ghost before = out@;
        let bad = d[i] == 60 && !writable_element(d, i);
        if bad {
            let end = find_name_end(d, i + 1);
            out.set(end - 1, 95);
            any = true;
        }
        proof {
            assert forall|k: int| 0 <= k < len implies #[trigger] out@[k]
                == if ends_unwritable_name(d@, k, i + 1) {
                95u8
            } else {
                d@[k]
            } by {
                let was = ends_unwritable_name(d@, k, i as int);
                let now = ends_unwritable_name(d@, k, i + 1);
                let hits = bad && name_end(d@, i + 1, 0) == k + 1;
                if was {
                    let j = choose|j: int|
                        0 <= j < i && (#[trigger] d@[j]) == 60 && !is_writable_element(d@, j)
                            && name_end(d@, j + 1, 0) == k + 1;
                    assert(d@[j] == 60);
                    assert(now);
                }
                if hits {
                    assert(d@[i as int] == 60);
                    assert(now);
                }
                if now && !hits {
                    let j = choose|j: int|
                        0 <= j < i + 1 && (#[trigger] d@[j]) == 60 && !is_writable_element(d@, j)
                            && name_end(d@, j + 1, 0) == k + 1;
                    assert(j != i);
                    assert(was);
                }
                assert(before[k] == if was { 95u8 } else { d@[k] });
            }
        }
        i += 1;
    }
    assert(out@ =~= masked(d@));
    (out, any)
}

/// Whether all dates of a property list can be written as texts.
pub fn readable(d: &[u8]) -> (r: bool)
    ensures
        r == is_readable(d@),
{
    if one_text(d) {
        return true;
    }
    if binary(d) {
        return writable_list(d);
    }
    let (other, any) = mask(d);
    if !any {
        return true;
    }
    let other = other.as_slice();
    if binary(other) {
        return false;
    }
    let (_, left) = mask(other);
    if left {
        return false;
    }
    match decode_strings(other) {
        Some(_) => true,
        None => false,
    }
}

/// A number is in its bytes with the highest first: without the last byte it is the number in the
/// bytes before.
pub proof fn numbers_have_the_highest_byte_first(d: Seq<u8>, at: int, n: int)
    requires
        n > 0,
    ensures
        number_at(d, at, 0) == 0,
        number_at(d, at, n) % 256 == d[at + n - 1],
        number_at(d, at, n) / 256 == number_at(d, at, n - 1),
{
}

/// Bytes that are looked for are found where they stand first, and nowhere where they do not stand.
pub proof fn bytes_are_found_where_they_stand_first(d: Seq<u8>, i: int, what: Seq<u8>)
    requires
        0 <= i <= d.len(),
    ensures
        i <= find_bytes(d, i, what) <= d.len(),
        find_bytes(d, i, what) < d.len() ==> {
            let at = find_bytes(d, i, what);
            at + what.len() <= d.len() && d.subrange(at, at + what.len()) == what
        },
        forall|j: int|
            i <= j < find_bytes(d, i, what) && j + what.len() <= d.len() ==> #[trigger] d.subrange(
                j,
                j + what.len(),
            ) != what,
    decreases d.len() - i,
{
    if i < d.len() && !holds_at(d, i, what) {
        bytes_are_found_where_they_stand_first(d, i + 1, what);
        assert forall|j: int|
            i <= j < find_bytes(d, i, what) && j + what.len() <= d.len() implies #[trigger] d.subrange(
            j,
            j + what.len(),
        ) != what by {
            if j > i {
                assert(i + 1 <= j);
            }
        }
    }
}

/// A property list is a binary one where it starts with `bplist00`.
pub proof fn binary_lists_start_with_their_mark(rest: Seq<u8>)
    ensures
        is_binary(vstd::utf8::encode_utf8("bplist00"@) + rest),
        forall|d: Seq<u8>| #[trigger]
            is_binary(d) ==> d.len() >= vstd::utf8::encode_utf8("bplist00"@).len() && d.take(
                vstd::utf8::encode_utf8("bplist00"@).len() as int,
            ) == vstd::utf8::encode_utf8("bplist00"@),
{
    let mark = vstd::utf8::encode_utf8("bplist00"@);
    assert((mark + rest).subrange(0, mark.len() as int) == mark);
}

/// The last 32 bytes of a binary property list say how it is laid out.
pub proof fn the_end_of_a_binary_list_says_its_layout(d: Seq<u8>)
    requires
        d.len() >= 32,
    ensures
        place_size(d) == d[d.len() - 26],
        number_size(d) == d[d.len() - 25],
        object_count(d) == number_at(d, d.len() - 24, 8),
        root_number(d) == number_at(d, d.len() - 16, 8),
        places_start(d) == number_at(d, d.len() - 8, 8),
{
}

/// A short list has its length in its mark, and the numbers of its items right behind it.
pub proof fn short_lists_have_their_length_in_the_mark(d: Seq<u8>, at: int, n: u8)
    requires
        n < 15,
        d[at] == 0xA0 + n,
    ensures
        list_length(d, at) == n,
        list_start(d, at) == at + 1,
{
}

/// A long list has its length behind its mark, in as many bytes as the byte in between says, and the
/// numbers of its items behind that.
pub proof fn long_lists_have_their_length_behind_the_mark(d: Seq<u8>, at: int)
    requires
        d[at] == 0xAF,
        0x10 <= d[at + 1] <= 0x13,
    ensures
        d[at + 1] == 0x10 ==> list_length(d, at) == d[at + 2] && list_start(d, at) == at + 3,
        d[at + 1] == 0x11 ==> list_length(d, at) == d[at + 2] * 256 + d[at + 3] && list_start(d, at)
            == at + 4,
        d[at + 1] == 0x12 ==> list_length(d, at) == number_at(d, at + 2, 4) && list_start(d, at)
            == at + 6,
        d[at + 1] == 0x13 ==> list_length(d, at) == number_at(d, at + 2, 8) && list_start(d, at)
            == at + 10,
{
    reveal_with_fuel(number_at, 3);
}

/// Only what is marked as a list is one.
pub proof fn only_lists_are_lists(d: Seq<u8>, at: int)
    requires
        is_list(d, at),
    ensures
        0xA0 <= d[at] <= 0xAF,
{
}

/// The numbers of the items of a list follow each other, and so do the places of the objects.
pub proof fn items_and_places_follow_each_other(d: Seq<u8>, at: int, k: int)
    ensures
        item_number(d, at, 0) == number_at(d, list_start(d, at), number_size(d)),
        item_number(d, at, k + 1) == number_at(
            d,
            list_start(d, at) + k * number_size(d) + number_size(d),
            number_size(d),
        ),
        object_place(d, 0) == number_at(d, places_start(d), place_size(d)),
        object_place(d, k + 1) == number_at(
            d,
            places_start(d) + k * place_size(d) + place_size(d),
            place_size(d),
        ),
        root_place(d) == object_place(d, number_at(d, d.len() - 16, 8)),
{
    assert((k + 1) * number_size(d) == k * number_size(d) + number_size(d)) by (nonlinear_arith);
    assert((k + 1) * place_size(d) == k * place_size(d) + place_size(d)) by (nonlinear_arith);
    assert(0 * number_size(d) == 0) by (nonlinear_arith);
    assert(0 * place_size(d) == 0) by (nonlinear_arith);
}

/// What is not marked as a date can always be written. A date can where its time is neither before
/// the year 0 nor after the year 9999, which the bits of its number of seconds since 2001 tell.
pub proof fn dates_of_the_years_can_be_written(d: Seq<u8>, at: int, bits: int)
    requires
        0 <= bits < 0x1_0000_0000_0000_0000,
    ensures
        d[at] != 0x33 ==> is_writable_object(d, at),
        d[at] == 0x33 && at + 9 <= d.len() ==> is_writable_object(d, at) == is_writable_time(
            number_at(d, at + 1, 8),
        ),
        is_writable_time(bits) <==> bits < 0x424D_62D2_3C80_0000 || 0x8000_0000_0000_0000 <= bits
            <= 0xC22D_6788_8900_0000,
{
}

/// The binary property lists that cannot be read are those whose outermost object, or an item of
/// it where it is a list, is a date that cannot be written.
pub proof fn unwritable_dates_are_not_read(d: Seq<u8>, k: int)
    requires
        has_writable_list(d),
        d.len() >= 32,
        1 <= d[d.len() - 26] <= 8,
        places_start(d) + object_count(d) * place_size(d) <= d.len() - 32,
        root_number(d) < object_count(d),
        root_place(d) < d.len() - 32,
    ensures
        is_writable_object(d, root_place(d)),
        is_list(d, root_place(d)) && 0 <= k < list_length(d, root_place(d)) && item_number(
            d,
            root_place(d),
            k,
        ) < object_count(d) ==> is_writable_object(
            d,
            object_place(d, item_number(d, root_place(d), k)),
        ),
{
    let at = root_place(d);
    if is_list(d, at) && 0 <= k < list_length(d, at) {
        assert(is_writable_item(d, at, k));
    }
}

/// A tag without quotes ends at the first `>`, and so does a document type without declarations.
pub proof fn tags_end_at_the_bracket(d: Seq<u8>, i: int, k: int)
    requires
        0 <= i <= k < d.len(),
        d[k] == '>' as u8,
        forall|j: int|
            i <= j < k ==> #[trigger] d[j] != '>' as u8 && d[j] != '"' as u8 && d[j] != '\'' as u8
                && d[j] != '[' as u8,
    ensures
        tag_end(d, i, 0) == k,
        doctype_end(d, i, 0) == k + 1,
    decreases k - i,
{
    assert('>' as u8 == 62 && '"' as u8 == 34 && '\'' as u8 == 39 && '[' as u8 == 91);
    if i < k {
        assert(d[i] != 62);
        tags_end_at_the_bracket(d, i + 1, k);
    }
}

proof fn lemma_quoted(d: Seq<u8>, i: int, k: int, quote: u8)
    requires
        0 <= i <= k < d.len(),
        quote == 34 || quote == 39,
        d[k] == quote,
        forall|j: int| i <= j < k ==> #[trigger] d[j] != quote,
    ensures
        tag_end(d, i, quote) == tag_end(d, k + 1, 0),
        doctype_end(d, i, quote) == doctype_end(d, k + 1, 0),
    decreases k - i,
{
    if i < k {
        assert(d[i] != quote);
        lemma_quoted(d, i + 1, k, quote);
    }
}

/// What stands in quotes ends no tag and no document type, whatever it is.
pub proof fn quotes_are_passed_over(d: Seq<u8>, i: int, k: int)
    requires
        0 <= i < k < d.len(),
        d[i] == '"' as u8 || d[i] == '\'' as u8,
        d[k] == d[i],
        forall|j: int| i < j < k ==> #[trigger] d[j] != d[i],
    ensures
        tag_end(d, i, 0) == tag_end(d, k + 1, 0),
        doctype_end(d, i, 0) == doctype_end(d, k + 1, 0),
{
    assert('"' as u8 == 34 && '\'' as u8 == 39);
    lemma_quoted(d, i + 1, k, d[i]);
}

/// A name without quotes ends at the first blank or `>`.
pub proof fn names_end_at_a_blank_or_bracket(d: Seq<u8>, i: int, k: int)
    requires
        0 <= i <= k < d.len(),
        d[k] == '>' as u8 || d[k] == ' ' as u8 || d[k] == '\t' as u8 || d[k] == '\n' as u8 || d[k]
            == '\r' as u8,
        forall|j: int|
            i <= j < k ==> #[trigger] d[j] != '>' as u8 && d[j] != ' ' as u8 && d[j] != '\t' as u8
                && d[j] != '\n' as u8 && d[j] != '\r' as u8 && d[j] != '"' as u8 && d[j]
                != '\'' as u8,
    ensures
        name_end(d, i, 0) == k,
    decreases k - i,
{
    assert('>' as u8 == 62 && '"' as u8 == 34 && '\'' as u8 == 39);
    assert(' ' as u8 == 32 && '\t' as u8 == 9 && '\n' as u8 == 10 && '\r' as u8 == 13);
    if i < k {
        assert(d[i] != 62);
        names_end_at_a_blank_or_bracket(d, i + 1, k);
    }
}

/// Dates are named `date`, with a prefix or without, and the end of an element names none.
pub proof fn dates_are_named_so(d: Seq<u8>, start: int, end: int)
    ensures
        names_dates(d, start, end) ==> end - 4 >= start && d[end - 4] == 'd' as u8 && d[end - 3]
            == 'a' as u8 && d[end - 2] == 't' as u8 && d[end - 1] == 'e' as u8 && d[start]
            != '/' as u8 && (start == end - 4 || d[end - 5] == ':' as u8),
        end == start + 4 && d[start] == 'd' as u8 && d[start + 1] == 'a' as u8 && d[start + 2]
            == 't' as u8 && d[start + 3] == 'e' as u8 ==> names_dates(d, start, end),
        end > start + 5 && d[start] != '/' as u8 && d[end - 5] == ':' as u8 && d[end - 4]
            == 'd' as u8 && d[end - 3] == 'a' as u8 && d[end - 2] == 't' as u8 && d[end - 1]
            == 'e' as u8 ==> names_dates(d, start, end),
{
    assert('d' as u8 == 100 && 'a' as u8 == 97 && 't' as u8 == 116 && 'e' as u8 == 101);
    assert('/' as u8 == 47 && ':' as u8 == 58);
}

/// The content of an element goes on to the next `<`, and ends there where that ends an element.
pub proof fn content_goes_on_to_the_next_tag(d: Seq<u8>, i: int, k: int)
    requires
        0 <= i <= k < d.len(),
        d[k] == '<' as u8,
        forall|j: int| i <= j < k ==> #[trigger] d[j] != '<' as u8,
    ensures
        content_end(d, i) == content_end(d, k),
        k + 1 < d.len() && d[k + 1] == '/' as u8 ==> content_end(d, i) == Some(k),
    decreases k - i,
{
    assert('<' as u8 == 60 && '/' as u8 == 47);
    if i < k {
        assert(d[i] != 60);
        content_goes_on_to_the_next_tag(d, i + 1, k);
    } else if k + 1 < d.len() && d[k + 1] == 47 {
        lemma_end_mark();
        assert(d.subrange(k, k + 2) == seq![60u8, 47u8]);
    }
}

/// Two digits are read as the number they write.
pub proof fn two_digits_are_read(s: Seq<char>, at: int, n: nat)
    requires
        n < 100,
        0 <= at,
        at + 2 <= s.len(),
        s.subrange(at, at + 2) == text::padded(n, 2),
    ensures
        two_digits(s, at) == n,
{
    reveal_with_fuel(text::decimal, 3);
    assert(s.subrange(at, at + 2)[0] == s[at]);
    assert(s.subrange(at, at + 2)[1] == s[at + 1]);
    if n < 10 {
        assert(text::padded(n, 2)[1] == text::decimal(n)[0]);
        assert(text::padded(n, 2)[0] == '0');
    } else {
        assert(text::decimal(n).len() == 2);
        assert(text::padded(n, 2) == text::decimal(n));
    }
}

/// The time zone is read from the end of a date: `Z` is none, and the sign says to which side of UTC
/// the hours and minutes are.
pub proof fn zones_are_read_from_the_end(s: Seq<char>)
    requires
        s.len() >= 20,
    ensures
        s.last() == 'Z' || s.last() == 'z' ==> minutes_ahead(s) == 0,
        s.last() != 'Z' && s.last() != 'z' && s[s.len() - 6] == '+' ==> minutes_ahead(s) == 60
            * two_digits(s, s.len() - 5) + two_digits(s, s.len() - 2),
        s.last() != 'Z' && s.last() != 'z' && s[s.len() - 6] == '-' ==> minutes_ahead(s) == -60
            * two_digits(s, s.len() - 5) - two_digits(s, s.len() - 2),
{
}

/// On the first day a date must not be earlier than its zone is ahead, on the last day it must not
/// be later than its zone is behind; on any other day it can always be written.
pub proof fn only_the_first_and_the_last_day_depend_on_the_zone(s: Seq<char>)
    requires
        s.len() >= 20,
    ensures
        s.take(10) != "0000-01-01"@ && s.take(10) != "9999-12-31"@ ==> stays_in_years(s),
        s.take(10) == "0000-01-01"@ ==> (stays_in_years(s) <==> minutes_ahead(s) <= 60 * two_digits(
            s,
            11,
        ) + two_digits(s, 14)),
        s.take(10) == "9999-12-31"@ ==> (stays_in_years(s) <==> 60 * two_digits(s, 11) + two_digits(
            s,
            14,
        ) - minutes_ahead(s) < 1440),
{
    reveal_strlit("0000-01-01");
    reveal_strlit("9999-12-31");
    assert("0000-01-01"@[0] == '0' && "9999-12-31"@[0] == '9');
}

/// In what a list is read without the names of dates nothing else is changed, and nothing at all
/// where no date is in the way.
pub proof fn only_names_of_dates_are_masked(d: Seq<u8>, k: int)
    requires
        0 <= k < d.len(),
    ensures
        masked(d).len() == d.len(),
        masked(d)[k] == d[k] || masked(d)[k] == '_' as u8,
        masked(d)[k] != d[k] ==> exists|i: int|
            0 <= i < d.len() && (#[trigger] d[i]) == '<' as u8 && !is_writable_element(d, i)
                && name_end(d, i + 1, 0) == k + 1,
        has_writable_elements(d) ==> masked(d) == d,
{
    assert('_' as u8 == 95 && '<' as u8 == 60);
    if has_writable_elements(d) {
        assert(masked(d) =~= d);
    }
}

/// Only the start of a date can be in the way of reading a list in XML.
pub proof fn other_elements_can_be_written(d: Seq<u8>, i: int)
    ensures
        !names_dates(d, i + 1, name_end(d, i + 1, 0)) ==> is_writable_element(d, i),
        names_dates(d, i + 1, name_end(d, i + 1, 0)) && element_text(d, i) is None
            ==> !is_writable_element(d, i),
        names_dates(d, i + 1, name_end(d, i + 1, 0)) && element_text(d, i) is Some ==> (
        is_writable_element(d, i) <==> stays_in_years(element_text(d, i)->0)),
{
}

/// A list in which all dates can be written is read as it is; a text that is written in XML always is.
pub proof fn lists_without_such_dates_are_read(d: Seq<u8>)
    ensures
        is_text_list(d) ==> strings_in(d) == plist_strings(d),
        is_binary(d) && has_writable_list(d) ==> strings_in(d) == plist_strings(d),
        !is_binary(d) && has_writable_elements(d) ==> strings_in(d) == plist_strings(d),
        is_binary(d) && !is_text_list(d) && !has_writable_list(d) ==> strings_in(d) is None,
        strings_in(d) is Some ==> strings_in(d) == plist_strings(d),
{
}

proof fn lemma_end_mark()
    ensures
        bytes_of("</"@) == seq![60u8, 47u8],
{
    reveal_strlit("</");
    let s = "</"@;
    assert(s =~= seq!['<', '/']);
    vstd::utf8::is_ascii_chars_encode_utf8(s);
    assert(bytes_of(s) =~= seq![60u8, 47u8]);
}

/// Whether a piece that starts at a place ends with a mark that stands nowhere before, where it
/// ends at all; the mark is looked for from some bytes on.
pub open spec fn ends_with_first(
    d: Seq<u8>,
    i: int,
    start: int,
    end: int,
    mark: Seq<u8>,
) -> bool {
    let at = end - mark.len();
    &&& i + start <= at
    &&& end <= d.len() ==> d.subrange(at, end) == mark
    &&& forall|j: int|
        i + start <= j < at && j + mark.len() <= d.len() ==> #[trigger] d.subrange(
            j,
            j + mark.len(),
        ) != mark
}

proof fn lemma_ends_with_first(d: Seq<u8>, i: int, start: int, mark: Seq<u8>)
    requires
        0 <= i + start <= d.len(),
    ensures
        ends_with_first(d, i, start, find_bytes(d, i + start, mark) + mark.len(), mark),
{
    bytes_are_found_where_they_stand_first(d, i + start, mark);
    let at = find_bytes(d, i + start, mark);
    if at + mark.len() <= d.len() && at == d.len() {
        assert(mark.len() == 0);
        assert(d.subrange(at, at) =~= mark);
    }
}

proof fn lemma_marks()
    ensures
        bytes_of("<!--"@) == seq![60u8, 33u8, 45u8, 45u8],
        bytes_of("-->"@) == seq![45u8, 45u8, 62u8],
        bytes_of("<![CDATA["@) == seq![60u8, 33u8, 91u8, 67u8, 68u8, 65u8, 84u8, 65u8, 91u8],
        bytes_of("]]>"@) == seq![93u8, 93u8, 62u8],
        bytes_of("<?"@) == seq![60u8, 63u8],
        bytes_of("?>"@) == seq![63u8, 62u8],
        bytes_of(">"@) == seq![62u8],
        bytes_of("<!ENTITY"@) == seq![60u8, 33u8, 69u8, 78u8, 84u8, 73u8, 84u8, 89u8],
        bytes_of("<!D"@) == seq![60u8, 33u8, 68u8],
        bytes_of("<!d"@) == seq![60u8, 33u8, 100u8],
{
    broadcast use vstd::utf8::is_ascii_chars_encode_utf8;

    reveal_strlit("<!--");
    reveal_strlit("-->");
    reveal_strlit("<![CDATA[");
    reveal_strlit("]]>");
    reveal_strlit("<?");
    reveal_strlit("?>");
    reveal_strlit(">");
    reveal_strlit("<!ENTITY");
    reveal_strlit("<!D");
    reveal_strlit("<!d");
    assert(vstd::utf8::is_ascii_chars("<!--"@));
    assert(vstd::utf8::is_ascii_chars("-->"@));
    assert(vstd::utf8::is_ascii_chars("<![CDATA["@));
    assert(vstd::utf8::is_ascii_chars("]]>"@));
    assert(vstd::utf8::is_ascii_chars("<?"@));
    assert(vstd::utf8::is_ascii_chars("?>"@));
    assert(vstd::utf8::is_ascii_chars(">"@));
    assert(vstd::utf8::is_ascii_chars("<!ENTITY"@));
    assert(vstd::utf8::is_ascii_chars("<!D"@));
    assert(vstd::utf8::is_ascii_chars("<!d"@));
    assert(bytes_of("<!--"@) =~= seq![60u8, 33u8, 45u8, 45u8]);
    assert(bytes_of("-->"@) =~= seq![45u8, 45u8, 62u8]);
    assert(bytes_of("<![CDATA["@) =~= seq![
        60u8,
        33u8,
        91u8,
        67u8,
        68u8,
        65u8,
        84u8,
        65u8,
        91u8,
    ]);
    assert(bytes_of("]]>"@) =~= seq![93u8, 93u8, 62u8]);
    assert(bytes_of("<?"@) =~= seq![60u8, 63u8]);
    assert(bytes_of("?>"@) =~= seq![63u8, 62u8]);
    assert(bytes_of(">"@) =~= seq![62u8]);
    assert(bytes_of("<!ENTITY"@) =~= seq![60u8, 33u8, 69u8, 78u8, 84u8, 73u8, 84u8, 89u8]);
    assert(bytes_of("<!D"@) =~= seq![60u8, 33u8, 68u8]);
    assert(bytes_of("<!d"@) =~= seq![60u8, 33u8, 100u8]);
}

/// A comment, character data and an instruction each end behind their own first end mark. Where none
/// of them and no document type starts, nothing is passed over.
pub proof fn asides_end_behind_their_mark(d: Seq<u8>, i: int)
    requires
        0 <= i < d.len(),
    ensures
        holds_at(d, i, seq![60u8, 33u8, 45u8, 45u8]) ==> ends_with_first(
            d,
            i,
            4,
            aside_end(d, i),
            seq![45u8, 45u8, 62u8],
        ),
        holds_at(d, i, seq![60u8, 33u8, 91u8, 67u8, 68u8, 65u8, 84u8, 65u8, 91u8])
            ==> ends_with_first(d, i, 9, aside_end(d, i), seq![93u8, 93u8, 62u8]),
        holds_at(d, i, seq![60u8, 63u8]) ==> ends_with_first(
            d,
            i,
            2,
            aside_end(d, i),
            seq![63u8, 62u8],
        ),
        holds_at(d, i, seq![60u8, 33u8, 68u8]) || holds_at(d, i, seq![60u8, 33u8, 100u8])
            ==> aside_end(d, i) == doctype_end(d, i + 3, 0),
        d[i] != 60 ==> aside_end(d, i) == i,
        i + 1 < d.len() && d[i + 1] != 33 && d[i + 1] != 63 ==> aside_end(d, i) == i,
{
    lemma_marks();
    lemma_first_bytes(d, i, seq![60u8, 33u8, 45u8, 45u8]);
    lemma_first_bytes(d, i, seq![60u8, 33u8, 91u8, 67u8, 68u8, 65u8, 84u8, 65u8, 91u8]);
    lemma_first_bytes(d, i, seq![60u8, 63u8]);
    lemma_first_bytes(d, i, seq![60u8, 33u8, 68u8]);
    lemma_first_bytes(d, i, seq![60u8, 33u8, 100u8]);
    if holds_at(d, i, bytes_of("<!--"@)) {
        lemma_ends_with_first(d, i, 4, bytes_of("-->"@));
    } else if holds_at(d, i, bytes_of("<![CDATA["@)) {
        lemma_ends_with_first(d, i, 9, bytes_of("]]>"@));
    } else if holds_at(d, i, bytes_of("<?"@)) {
        lemma_ends_with_first(d, i, 2, bytes_of("?>"@));
    }
}

proof fn lemma_first_bytes(d: Seq<u8>, i: int, what: Seq<u8>)
    requires
        what.len() >= 2,
    ensures
        holds_at(d, i, what) ==> d[i] == what[0] && d[i + 1] == what[1],
        holds_at(d, i, what) && what.len() > 2 ==> d[i + 2] == what[2],
{
    if holds_at(d, i, what) {
        let s = d.subrange(i, i + what.len());
        assert(s[0] == d[i] && s[1] == d[i + 1]);
        if what.len() > 2 {
            assert(s[2] == d[i + 2]);
        }
    }
}

/// Inside a document type a comment and an instruction end behind their mark, an entity at its first
/// bracket that is not quoted, and its declarations at the `]`.
pub proof fn declarations_end_behind_their_mark(d: Seq<u8>, i: int)
    requires
        0 <= i < d.len(),
    ensures
        holds_at(d, i, seq![60u8, 33u8, 45u8, 45u8]) ==> ends_with_first(
            d,
            i,
            4,
            declaration_end(d, i),
            seq![45u8, 45u8, 62u8],
        ),
        holds_at(d, i, seq![60u8, 63u8]) ==> ends_with_first(
            d,
            i,
            2,
            declaration_end(d, i),
            seq![63u8, 62u8],
        ),
        holds_at(d, i, seq![60u8, 33u8, 69u8, 78u8, 84u8, 73u8, 84u8, 89u8]) ==> declaration_end(
            d,
            i,
        ) == tag_end(d, i + 8, 0) + 1,
        d[i] == 93 ==> ends_with_first(d, i, 1, subset_end(d, i), seq![62u8]),
        d[i] != 93 && d[i] != 60 ==> subset_end(d, i) == subset_end(d, i + 1),
        d[i] == 60 && i < declaration_end(d, i) <= d.len() ==> subset_end(d, i) == subset_end(
            d,
            declaration_end(d, i),
        ),
        d[i] == 91 ==> doctype_end(d, i, 0) == subset_end(d, i + 1),
{
    lemma_marks();
    lemma_first_bytes(d, i, seq![60u8, 33u8, 45u8, 45u8]);
    lemma_first_bytes(d, i, seq![60u8, 63u8]);
    lemma_first_bytes(d, i, seq![60u8, 33u8, 69u8, 78u8, 84u8, 73u8, 84u8, 89u8]);
    if holds_at(d, i, bytes_of("<?"@)) {
        lemma_ends_with_first(d, i, 2, bytes_of("?>"@));
    } else if holds_at(d, i, bytes_of("<!--"@)) {
        lemma_ends_with_first(d, i, 4, bytes_of("-->"@));
    }
    if d[i] == 93 {
        lemma_ends_with_first(d, i, 1, bytes_of(">"@));
    }
}

} // verus!
