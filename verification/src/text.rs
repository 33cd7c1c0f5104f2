//! Text helpers: characters of a string, strings from characters, bytes to text, decimal numbers.

use vstd::prelude::*;

verus! {

/// `String::push` appends one character at the end.
pub assume_specification[ String::push ](s: &mut String, c: char)
    ensures
        final(s)@ == old(s)@.push(c),
;

/// `String::push_str` appends the characters of a string slice at the end.
pub assume_specification[ String::push_str ](s: &mut String, other: &str)
    ensures
        final(s)@ == old(s)@ + other@,
;

/// What `String::from_utf8_lossy` makes of a byte sequence: the text in which every invalid part
/// has been replaced by U+FFFD.
pub uninterp spec fn lossy_text(bytes: Seq<u8>) -> Seq<char>;

/// `String::from_utf8_lossy`: the text of the bytes, with U+FFFD for what is not UTF-8. Bytes
/// that are UTF-8 come back as exactly the text that they encode.
#[verifier::external_body]
pub(crate) fn text_lossy(bytes: &[u8]) -> (r: String)
    ensures
        r@ == lossy_text(bytes@),
        vstd::utf8::valid_utf8(bytes@) ==> vstd::utf8::encode_utf8(r@) == bytes@,
{
    String::from_utf8_lossy(bytes).into_owned()
}

/// `std::str::from_utf8`: the text that the bytes encode, or nothing where they are not UTF-8.
#[verifier::external_body]
pub(crate) fn utf8_text(bytes: &[u8]) -> (r: Option<String>)
    ensures
        match r {
            Some(s) => vstd::utf8::encode_utf8(s@) == bytes@,
            None => !vstd::utf8::valid_utf8(bytes@),
        },
{
    std::str::from_utf8(bytes).ok().map(|s| s.to_string())
}

/// Whether a character is white space to Unicode.
pub open spec fn white_space(c: char) -> bool {
    let n = c as u32;
    ||| 0x9 <= n <= 0xD
    ||| n == 0x20 || n == 0x85 || n == 0xA0 || n == 0x1680
    ||| 0x2000 <= n <= 0x200A
    ||| n == 0x2028 || n == 0x2029 || n == 0x202F || n == 0x205F || n == 0x3000
}

/// Whether a character is white space to Unicode.
pub fn is_white_space(c: char) -> (r: bool)
    ensures
        r == white_space(c),
{
    let n: u32 = c as u32;
    (0x9 <= n && n <= 0xD) || n == 0x20 || n == 0x85 || n == 0xA0 || n == 0x1680 || (0x2000 <= n
        && n <= 0x200A) || n == 0x2028 || n == 0x2029 || n == 0x202F || n == 0x205F || n == 0x3000
}

/// A text without the white space at its end.
pub open spec fn end_trimmed(s: Seq<char>) -> Seq<char>
    decreases s.len(),
{
    if s.len() > 0 && white_space(s.last()) {
        end_trimmed(s.drop_last())
    } else {
        s
    }
}

/// A text without the white space at its end.
pub fn trim_end(s: &str) -> (r: String)
    ensures
        r@ == end_trimmed(s@),
{
    let mut chars = chars_of(s);
    while chars.len() > 0 && is_white_space(chars[chars.len() - 1])
        invariant
            end_trimmed(chars@) == end_trimmed(s@),
        decreases chars@.len(),
    {
        let _ = chars.pop();
    }
    string_of(chars.as_slice())
}

/// Texts put one behind the other with a separator between them.
pub open spec fn joined_by(parts: Seq<Seq<char>>, separator: Seq<char>) -> Seq<char>
    decreases parts.len(),
{
    if parts.len() == 0 {
        Seq::empty()
    } else if parts.len() == 1 {
        parts[0]
    } else {
        joined_by(parts.drop_last(), separator) + separator + parts.last()
    }
}

/// The text of an optional string.
pub open spec fn optional_text(s: Option<String>) -> Option<Seq<char>> {
    match s {
        Some(t) => Some(t@),
        None => None,
    }
}

/// The texts of a list of strings.
pub open spec fn text_views(s: Seq<String>) -> Seq<Seq<char>> {
    s.map_values(|t: String| t@)
}

/// Two texts, one behind the other.
pub fn concat2(a: &str, b: &str) -> (r: String)
    ensures
        r@ == a@ + b@,
{
    let mut out = a.to_owned();
    out.push_str(b);
    out
}

/// Three texts, one behind the other.
pub fn concat3(a: &str, b: &str, c: &str) -> (r: String)
    ensures
        r@ == a@ + b@ + c@,
{
    let mut out = a.to_owned();
    out.push_str(b);
    out.push_str(c);
    out
}

/// Adds a text to a list.
pub fn push_text(list: &mut Vec<String>, t: String)
    ensures
        text_views(final(list)@) == text_views(old(list)@).push(t@),
{
    let ghost before = text_views(list@);
    let ghost v = t@;
    list.push(t);
    assert(text_views(list@) =~= before.push(v));
}

/// Puts texts one behind the other with a separator between them.
pub fn join_texts(parts: &Vec<String>, separator: &str) -> (r: String)
    ensures
        r@ == joined_by(text_views(parts@), separator@),
{
    let mut out: String = String::new();
    let mut i: usize = 0;
    let ghost all = text_views(parts@);
    while i < parts.len()
        invariant
            i <= parts@.len(),
            all == text_views(parts@),
            out@ == joined_by(all.take(i as int), separator@),
        decreases parts@.len() - i,
    {
        proof {
            assert(all.take(i + 1).drop_last() =~= all.take(i as int));
            assert(all.take(i + 1).last() == parts@[i as int]@);
        }
        if i > 0 {
            out.push_str(separator);
        } else {
            assert(out@ =~= Seq::empty());
        }
        out.push_str(parts[i].as_str());
        i += 1;
        assert(out@ =~= joined_by(all.take(i as int), separator@));
    }
    assert(all.take(i as int) =~= all);
    out
}

/// The place of the first `c` at or after `i`, and the length where there is none.
pub open spec fn find_from(s: Seq<char>, c: char, i: int) -> int
    decreases s.len() - i,
{
    if i < 0 || i >= s.len() {
        s.len() as int
    } else if s[i] == c {
        i
    } else {
        find_from(s, c, i + 1)
    }
}

/// A first place is inside the text or at its end, and nothing before it is the character.
pub proof fn lemma_find_from(s: Seq<char>, c: char, i: int)
    requires
        0 <= i <= s.len(),
    ensures
        i <= find_from(s, c, i) <= s.len(),
        find_from(s, c, i) < s.len() ==> s[find_from(s, c, i)] == c,
        forall|k: int| i <= k < find_from(s, c, i) ==> s[k] != c,
    decreases s.len() - i,
{
    if i < s.len() && s[i] != c {
        lemma_find_from(s, c, i + 1);
    }
}

/// A line that ended in a line feed, without the carriage return before it.
pub open spec fn without_return(s: Seq<char>) -> Seq<char> {
    if s.len() > 0 && s.last() == '\r' {
        s.drop_last()
    } else {
        s
    }
}

/// The lines of a text. Each ends at a line feed, with or without a carriage return before it;
/// the last one may have no end.
pub open spec fn lines_of(s: Seq<char>) -> Seq<Seq<char>>
    decreases s.len(),
{
    if s.len() == 0 {
        Seq::empty()
    } else {
        let end = find_from(s, '\n', 0);
        proof {
            lemma_find_from(s, '\n', 0);
        }
        if end >= s.len() {
            seq![s]
        } else {
            seq![without_return(s.take(end))] + lines_of(s.skip(end + 1))
        }
    }
}

/// The first line of a text, and nothing for the empty text.
pub open spec fn first_line_of(s: Seq<char>) -> Seq<char> {
    if lines_of(s).len() > 0 {
        lines_of(s)[0]
    } else {
        Seq::empty()
    }
}

/// A copy of a part of some characters.
pub fn chars_copy(s: &Vec<char>, start: usize, end: usize) -> (r: Vec<char>)
    requires
        start <= end <= s@.len(),
    ensures
        r@ == s@.subrange(start as int, end as int),
{
    let mut out: Vec<char> = Vec::new();
    let mut i: usize = start;
    while i < end
        invariant
            start <= i <= end <= s@.len(),
            out@ == s@.subrange(start as int, i as int),
        decreases end - i,
    {
        out.push(s[i]);
        i += 1;
        assert(out@ =~= s@.subrange(start as int, i as int));
    }
    out
}

/// The place of the first `c` at or after `i`, and the length where there is none.
pub fn find_char(s: &Vec<char>, c: char, i: usize) -> (r: usize)
    requires
        i <= s@.len(),
    ensures
        r == find_from(s@, c, i as int),
        i <= r <= s@.len(),
{
    let mut k: usize = i;
    while k < s.len() && s[k] != c
        invariant
            i <= k <= s@.len(),
            find_from(s@, c, i as int) == find_from(s@, c, k as int),
        decreases s@.len() - k,
    {
        k += 1;
    }
    k
}

proof fn lemma_find_shift(s: Seq<char>, c: char, i: int, k: int)
    requires
        0 <= i <= k <= s.len(),
    ensures
        find_from(s.skip(i), c, k - i) + i == find_from(s, c, k),
    decreases s.len() - k,
{
    if k < s.len() {
        assert(s.skip(i)[k - i] == s[k]);
        if s[k] != c {
            lemma_find_shift(s, c, i, k + 1);
        }
    }
}

/// The lines of a text.
pub fn lines(text: &str) -> (r: Vec<String>)
    ensures
        text_views(r@) == lines_of(text@),
{
    let s = chars_of(text);
    let mut out: Vec<String> = Vec::new();
    let mut i: usize = 0;
    proof {
        assert(s@.skip(0) =~= s@);
        assert(text_views(out@) + lines_of(s@.skip(0)) =~= lines_of(text@));
    }
    while i < s.len()
        invariant
            i <= s@.len(),
            text_views(out@) + lines_of(s@.skip(i as int)) == lines_of(text@),
        decreases s@.len() - i,
    {
        let end = find_char(&s, '\n', i);
        let ghost rest = s@.skip(i as int);
        let ghost done = text_views(out@);
        proof {
            lemma_find_shift(s@, '\n', i as int, i as int);
        }
        if end < s.len() {
            let mut stop: usize = end;
            if stop > i && s[stop - 1] == '\r' {
                stop = stop - 1;
            }
            let line = chars_copy(&s, i, stop);
            proof {
                assert(rest.take(end - i).len() == end - i);
                if end > i {
                    assert(rest.take(end - i).last() == s@[end - 1]);
                }
                assert(line@ =~= without_return(rest.take(end - i)));
            }
            let text = string_of(line.as_slice());
            let ghost t = text@;
            out.push(text);
            proof {
                assert(text_views(out@) =~= done.push(t));
                assert(rest.skip(end - i + 1) =~= s@.skip(end + 1));
                assert(done + (seq![t] + lines_of(s@.skip(end + 1))) =~= done.push(t) + lines_of(
                    s@.skip(end + 1),
                ));
            }
            i = end + 1;
        } else {
            let line = chars_copy(&s, i, end);
            assert(line@ =~= rest);
            let text = string_of(line.as_slice());
            let ghost t = text@;
            out.push(text);
            proof {
                assert(text_views(out@) =~= done.push(t));
                assert(s@.skip(end as int) =~= Seq::empty());
                assert(done + seq![t] =~= done.push(t) + lines_of(s@.skip(end as int)));
            }
            i = end;
        }
    }
    proof {
        assert(s@.skip(i as int) =~= Seq::empty());
        assert(text_views(out@) + Seq::<Seq<char>>::empty() =~= text_views(out@));
    }
    out
}

/// The first line of a text, and nothing for the empty text.
pub fn first_line(text: &str) -> (r: String)
    ensures
        r@ == first_line_of(text@),
{
    let all = lines(text);
    assert(text_views(all@).len() == all@.len());
    if all.len() > 0 {
        assert(text_views(all@)[0] == all@[0]@);
        all[0].clone()
    } else {
        let r = String::new();
        assert(r@ =~= Seq::empty());
        r
    }
}

/// A text without the white space at its start.
pub open spec fn start_trimmed(s: Seq<char>) -> Seq<char>
    decreases s.len(),
{
    if s.len() > 0 && white_space(s[0]) {
        start_trimmed(s.skip(1))
    } else {
        s
    }
}

/// A text without the white space at either end.
pub open spec fn trimmed(s: Seq<char>) -> Seq<char> {
    end_trimmed(start_trimmed(s))
}

/// Of a text of nothing but white space nothing is left.
pub proof fn blanks_are_trimmed_away(s: Seq<char>)
    requires
        forall|i: int| 0 <= i < s.len() ==> white_space(#[trigger] s[i]),
    ensures
        trimmed(s).len() == 0,
    decreases s.len(),
{
    if s.len() > 0 {
        let rest = s.skip(1);
        assert forall|i: int| 0 <= i < rest.len() implies white_space(#[trigger] rest[i]) by {
            assert(rest[i] == s[i + 1]);
        }
        assert(white_space(s[0]));
        blanks_are_trimmed_away(rest);
    }
}

/// A text without the white space at either end.
pub fn trim(s: &str) -> (r: String)
    ensures
        r@ == trimmed(s@),
{
    let chars = chars_of(s);
    let mut i: usize = 0;
    assert(chars@.skip(0) =~= chars@);
    while i < chars.len() && is_white_space(chars[i])
        invariant
            i <= chars@.len(),
            start_trimmed(chars@.skip(i as int)) == start_trimmed(s@),
        decreases chars@.len() - i,
    {
        assert(chars@.skip(i as int).skip(1) =~= chars@.skip(i + 1));
        i += 1;
    }
    let n = chars.len();
    let rest = chars_copy(&chars, i, n);
    assert(rest@ =~= chars@.skip(i as int));
    let text = string_of(rest.as_slice());
    trim_end(text.as_str())
}

/// What stands behind a prefix, where a text starts with it.
pub open spec fn behind(s: Seq<char>, prefix: Seq<char>) -> Option<Seq<char>> {
    if prefix.is_prefix_of(s) {
        Some(s.skip(prefix.len() as int))
    } else {
        None
    }
}

/// What stands behind a prefix, where a text starts with it.
pub fn strip_prefix(text: &str, prefix: &str) -> (r: Option<String>)
    ensures
        match r {
            Some(t) => behind(text@, prefix@) == Some(t@),
            None => behind(text@, prefix@) is None,
        },
{
    let s = chars_of(text);
    let p = chars_of(prefix);
    if p.len() > s.len() {
        return None;
    }
    let mut i: usize = 0;
    while i < p.len()
        invariant
            i <= p@.len() <= s@.len(),
            s@ == text@,
            p@ == prefix@,
            forall|k: int| 0 <= k < i ==> s@[k] == p@[k],
        decreases p@.len() - i,
    {
        if s[i] != p[i] {
            assert(s@.subrange(0, p@.len() as int)[i as int] != p@[i as int]);
            return None;
        }
        i += 1;
    }
    assert(s@.subrange(0, p@.len() as int) =~= p@);
    let n = s.len();
    let rest = chars_copy(&s, i, n);
    assert(rest@ =~= text@.skip(prefix@.len() as int));
    Some(string_of(rest.as_slice()))
}

/// The characters of a string slice, in order.
pub fn chars_of(s: &str) -> (r: Vec<char>)
    ensures
        r@ == s@,
{
    let mut out: Vec<char> = Vec::new();
    for c in it: s.chars()
        invariant
            out@ == it.seq().take(it.index()),
            it.seq() == s@,
    {
        out.push(c);
    }
    out
}

/// The string made of the given characters.
pub fn string_of(chars: &[char]) -> (r: String)
    ensures
        r@ == chars@,
{
    let mut out: String = String::new();
    let mut i: usize = 0;
    while i < chars.len()
        invariant
            i <= chars.len(),
            out@ == chars@.take(i as int),
        decreases chars.len() - i,
    {
        out.push(chars[i]);
        i += 1;
        assert(out@ =~= chars@.take(i as int));
    }
    assert(chars@.take(i as int) =~= chars@);
    out
}

/// The decimal digits of a number, most significant first.
pub open spec fn decimal(n: nat) -> Seq<char>
    decreases n,
{
    if n < 10 {
        seq![(n + '0' as nat) as char]
    } else {
        decimal(n / 10).push((n % 10 + '0' as nat) as char)
    }
}

/// The character of one decimal digit.
fn digit_char(d: u8) -> (c: char)
    requires
        d < 10,
    ensures
        c == (d as nat + '0' as nat) as char,
{
    (d + 48) as char
}

/// Appends the decimal digits of a number.
pub fn push_decimal(s: &mut String, n: u64)
    ensures
        final(s)@ == old(s)@ + decimal(n as nat),
    decreases n,
{
    if n < 10 {
        s.push(digit_char(n as u8));
        assert(s@ =~= old(s)@ + decimal(n as nat));
    } else {
        push_decimal(s, n / 10);
        s.push(digit_char((n % 10) as u8));
        assert(s@ =~= old(s)@ + decimal(n as nat));
    }
}


/// So many zeros.
pub open spec fn zeros(n: int) -> Seq<char> {
    Seq::new(
        if n > 0 {
            n as nat
        } else {
            0
        },
        |i: int| '0',
    )
}

/// The decimal digits of a number with zeros before them up to a width.
pub open spec fn padded(n: nat, width: int) -> Seq<char> {
    zeros(width - decimal(n).len()) + decimal(n)
}

/// How many decimal digits a number has.
fn digit_count(n: u64) -> (r: usize)
    ensures
        r == decimal(n as nat).len(),
        1 <= r <= 20,
{
    let mut left: u64 = n;
    let mut count: usize = 1;
    proof {
        lemma_decimal_len(n as nat);
    }
    while left >= 10
        invariant
            1 <= count,
            count - 1 + decimal(left as nat).len() == decimal(n as nat).len(),
            decimal(n as nat).len() <= 20,
            decimal(left as nat).len() >= 1,
        decreases left,
    {
        assert(decimal(left as nat).len() == decimal((left / 10) as nat).len() + 1);
        proof {
            lemma_decimal_positive((left / 10) as nat);
        }
        left = left / 10;
        count += 1;
    }
    count
}

proof fn lemma_decimal_positive(n: nat)
    ensures
        decimal(n).len() >= 1,
    decreases n,
{
    if n >= 10 {
        lemma_decimal_positive(n / 10);
    }
}

proof fn lemma_decimal_len(n: nat)
    requires
        n < 0x1_0000_0000_0000_0000,
    ensures
        1 <= decimal(n).len() <= 20,
{
    reveal_with_fuel(decimal, 21);
    lemma_decimal_positive(n);
}

/// Appends the decimal digits of a number with zeros before them up to a width.
pub fn push_padded(s: &mut String, n: u64, width: usize)
    ensures
        final(s)@ == old(s)@ + padded(n as nat, width as int),
{
    let digits = digit_count(n);
    let ghost before = s@;
    let mut k: usize = digits;
    assert(s@ =~= before + zeros(k - digits));
    while k < width
        invariant
            digits <= k,
            k <= width || width < digits,
            k > width ==> k == digits,
            s@ == before + zeros(k - digits),
        decreases width - k,
    {
        s.push('0');
        k += 1;
        assert(s@ =~= before + zeros(k - digits));
    }
    push_decimal(s, n);
    assert(zeros(k - digits) =~= zeros(width - digits));
    assert(s@ =~= before + padded(n as nat, width as int));
}

/// Whether every character is a decimal digit.
pub open spec fn all_digits(s: Seq<char>) -> bool {
    forall|i: int| 0 <= i < s.len() ==> '0' <= #[trigger] s[i] <= '9'
}

/// The number that decimal digits stand for.
pub open spec fn digits_value(s: Seq<char>) -> nat
    decreases s.len(),
{
    if s.len() == 0 {
        0
    } else {
        (digits_value(s.drop_last()) * 10 + (s.last() as int - '0' as int)) as nat
    }
}

/// A text as a number of at most 255: decimal digits, with or without a plus sign before them.
pub open spec fn small_number(s: Seq<char>) -> Option<u8> {
    let d = if s.len() > 0 && s[0] == '+' {
        s.skip(1)
    } else {
        s
    };
    if d.len() > 0 && all_digits(d) && digits_value(d) <= 255 {
        Some(digits_value(d) as u8)
    } else {
        None
    }
}

/// Reads a text as a number of at most 255.
pub fn parse_u8(text: &str) -> (r: Option<u8>)
    ensures
        r == small_number(text@),
{
    let s = chars_of(text);
    let start: usize = if s.len() > 0 && s[0] == '+' {
        1
    } else {
        0
    };
    let n = s.len();
    let d = chars_copy(&s, start, n);
    proof {
        assert(start == 1 ==> d@ =~= s@.skip(1));
        assert(start == 0 ==> d@ =~= s@);
    }
    let ghost digits = if text@.len() > 0 && text@[0] == '+' {
        text@.skip(1)
    } else {
        text@
    };
    assert(d@ == digits);
    if d.len() == 0 {
        return None;
    }
    let mut value: u32 = 0;
    let mut i: usize = 0;
    let mut small = true;
    while i < d.len()
        invariant
            i <= d@.len(),
            d@ == digits,
            digits == (if text@.len() > 0 && text@[0] == '+' {
                text@.skip(1)
            } else {
                text@
            }),
            forall|k: int| 0 <= k < i ==> '0' <= #[trigger] d@[k] <= '9',
            small ==> value == digits_value(d@.take(i as int)) && value <= 255,
            !small ==> digits_value(d@.take(i as int)) > 255,
        decreases d@.len() - i,
    {
        let c = d[i];
        if c < '0' || c > '9' {
            assert(!all_digits(d@));
            return None;
        }
        proof {
            assert(d@.take(i + 1).drop_last() =~= d@.take(i as int));
            assert(d@.take(i + 1).last() == c);
        }
        if small {
            value = value * 10 + (c as u32 - 48);
            if value > 255 {
                small = false;
            }
        }
        i += 1;
    }
    assert(d@.take(i as int) =~= d@);
    if small {
        Some(value as u8)
    } else {
        None
    }
}

/// Reading the digits of a small number gives the number back.
pub proof fn digits_read_back(n: nat)
    ensures
        all_digits(decimal(n)),
        digits_value(decimal(n)) == n,
        decimal(n).len() >= 1,
        decimal(n)[0] != '+',
    decreases n,
{
    let s = decimal(n);
    if n < 10 {
        assert(s.drop_last() =~= Seq::empty());
        assert(s.last() as int == n + '0' as int);
        reveal_with_fuel(digits_value, 2);
    } else {
        digits_read_back(n / 10);
        let rest = decimal(n / 10);
        assert(s.drop_last() =~= rest);
        assert(s.last() as int == n % 10 + '0' as int);
        assert forall|i: int| 0 <= i < s.len() implies '0' <= #[trigger] s[i] <= '9' by {
            if i < rest.len() {
                assert(s[i] == rest[i]);
            }
        }
        assert(s[0] == rest[0]);
    }
}

/// `str::to_lowercase` of a text: a function of the text alone.
pub uninterp spec fn lowercase(s: Seq<char>) -> Seq<char>;

/// `str::to_lowercase`: the text in lower case, as Unicode maps it.
pub assume_specification[ str::to_lowercase ](s: &str) -> (r: String)
    ensures
        r@ == lowercase(s@),
;

/// A text with every occurrence of a character replaced by a text.
pub open spec fn replaced(s: Seq<char>, c: char, by: Seq<char>) -> Seq<char>
    decreases s.len(),
{
    if s.len() == 0 {
        Seq::empty()
    } else if s.last() == c {
        replaced(s.drop_last(), c, by) + by
    } else {
        replaced(s.drop_last(), c, by).push(s.last())
    }
}

/// Replaces every occurrence of a character by a text.
pub fn replace_char(text: &str, c: char, by: &str) -> (r: String)
    ensures
        r@ == replaced(text@, c, by@),
{
    let s = chars_of(text);
    let mut out: String = String::new();
    let mut i: usize = 0;
    assert(out@ =~= replaced(s@.take(0), c, by@));
    while i < s.len()
        invariant
            i <= s@.len(),
            out@ == replaced(s@.take(i as int), c, by@),
        decreases s@.len() - i,
    {
        proof {
            assert(s@.take(i + 1).drop_last() =~= s@.take(i as int));
            assert(s@.take(i + 1).last() == s@[i as int]);
        }
        if s[i] == c {
            out.push_str(by);
        } else {
            out.push(s[i]);
        }
        i += 1;
    }
    assert(s@.take(i as int) =~= s@);
    out
}

/// A text without the character to be replaced stays as it is.
pub proof fn lemma_replaced_without(s: Seq<char>, c: char, by: Seq<char>)
    requires
        !s.contains(c),
    ensures
        replaced(s, c, by) == s,
    decreases s.len(),
{
    if s.len() > 0 {
        assert(s[s.len() - 1] != c);
        assert(!s.drop_last().contains(c)) by {
            assert forall|k: int| 0 <= k < s.drop_last().len() implies s.drop_last()[k] != c by {
                assert(s.drop_last()[k] == s[k]);
            }
        }
        lemma_replaced_without(s.drop_last(), c, by);
        assert(s.drop_last().push(s.last()) =~= s);
    }
}

/// What stands behind a beginning of a text is the rest of the text.
pub proof fn lemma_behind(prefix: Seq<char>, s: Seq<char>)
    ensures
        behind(s, prefix) is Some ==> s == prefix + behind(s, prefix)->0,
        behind(s, prefix) is Some ==> prefix.len() <= s.len() && forall|i: int|
            0 <= i < prefix.len() ==> s[i] == #[trigger] prefix[i],
        prefix.len() <= s.len() && (forall|i: int| 0 <= i < prefix.len() ==> s[i] == prefix[i])
            ==> behind(s, prefix) is Some,
{
    if behind(s, prefix) is Some {
        assert(s =~= prefix + behind(s, prefix)->0);
    }
    if prefix.len() <= s.len() && (forall|i: int| 0 <= i < prefix.len() ==> s[i] == prefix[i]) {
        assert(s.take(prefix.len() as int) =~= prefix);
    }
}

/// A text that starts with some beginning is parted from it exactly behind it.
pub proof fn lemma_behind_joined(prefix: Seq<char>, rest: Seq<char>)
    ensures
        behind(prefix + rest, prefix) == Some(rest),
{
    lemma_behind(prefix, prefix + rest);
    assert((prefix + rest).skip(prefix.len() as int) =~= rest);
    assert((prefix + rest).take(prefix.len() as int) =~= prefix);
}

/// A text without a line feed is one line, or none where it is empty. A line feed ends a line, a
/// carriage return right before it is not part of the line, and the other lines follow.
pub proof fn lines_end_at_line_feeds(line: Seq<char>, rest: Seq<char>)
    requires
        !line.contains('\n'),
    ensures
        line.len() > 0 ==> lines_of(line) == seq![line],
        line.len() == 0 ==> lines_of(line).len() == 0,
        line.len() == 0 || line.last() != '\r' ==> lines_of(line + seq!['\n'] + rest) == seq![line]
            + lines_of(rest),
        line.len() > 0 && line.last() == '\r' ==> lines_of(line + seq!['\n'] + rest) == seq![
            line.drop_last(),
        ] + lines_of(rest),
{
    let s = line + seq!['\n'] + rest;
    let n = line.len() as int;
    lemma_find_from(line, '\n', 0);
    lemma_find_from(s, '\n', 0);
    let end = find_from(s, '\n', 0);
    assert(s[n] == '\n');
    if end < n {
        assert(line[end] == s[end]);
        assert(line.contains(line[end]));
    }
    assert(s.take(end) =~= line);
    assert(s.skip(end + 1) =~= rest);
    let own = find_from(line, '\n', 0);
    if own < n {
        assert(line.contains(line[own]));
    }
}

/// The first line of a text is what stands before the first line feed, without a carriage return
/// right before it, and all of a text that has no line feed.
pub proof fn first_line_ends_at_the_line_feed(line: Seq<char>, rest: Seq<char>)
    requires
        !line.contains('\n'),
    ensures
        first_line_of(line) == line,
        line.len() == 0 || line.last() != '\r' ==> first_line_of(line + seq!['\n'] + rest) == line,
        line.len() > 0 && line.last() == '\r' ==> first_line_of(line + seq!['\n'] + rest)
            == line.drop_last(),
{
    lines_end_at_line_feeds(line, rest);
    assert(line.len() == 0 ==> first_line_of(line) =~= line);
}

/// Trimming takes white space from both ends and nothing else: what is left is a part of the text
/// with nothing but white space before and behind it, and neither starts nor ends with any.
pub proof fn trimming_takes_only_the_ends(s: Seq<char>)
    ensures
        exists|i: int, j: int|
            {
                &&& 0 <= i <= j <= s.len()
                &&& trimmed(s) == #[trigger] s.subrange(i, j)
                &&& forall|k: int| 0 <= k < i ==> white_space(#[trigger] s[k])
                &&& forall|k: int| j <= k < s.len() ==> white_space(#[trigger] s[k])
            },
        trimmed(s).len() > 0 ==> !white_space(trimmed(s)[0]) && !white_space(trimmed(s).last()),
{
    let i = lemma_start_trimmed(s);
    let t = start_trimmed(s);
    let n = lemma_end_trimmed(t);
    assert(t.take(n) =~= s.subrange(i, i + n));
    assert forall|k: int| i + n <= k < s.len() implies white_space(#[trigger] s[k]) by {
        assert(t[k - i] == s[k]);
    }
    if n > 0 {
        assert(trimmed(s)[0] == t[0]);
    }
}

/// Trimming at the end takes white space there and nothing else.
pub proof fn end_trimming_takes_only_the_end(s: Seq<char>)
    ensures
        end_trimmed(s).len() <= s.len(),
        end_trimmed(s) == s.take(end_trimmed(s).len() as int),
        forall|k: int| end_trimmed(s).len() <= k < s.len() ==> white_space(#[trigger] s[k]),
        end_trimmed(s).len() > 0 ==> !white_space(end_trimmed(s).last()),
{
    let n = lemma_end_trimmed(s);
}

proof fn lemma_end_trimmed(s: Seq<char>) -> (n: int)
    ensures
        0 <= n <= s.len(),
        end_trimmed(s) == s.take(n),
        forall|k: int| n <= k < s.len() ==> white_space(#[trigger] s[k]),
        n > 0 ==> !white_space(s[n - 1]),
    decreases s.len(),
{
    if s.len() > 0 && white_space(s.last()) {
        let n = lemma_end_trimmed(s.drop_last());
        assert(s.drop_last().take(n) =~= s.take(n));
        assert forall|k: int| n <= k < s.len() implies white_space(#[trigger] s[k]) by {
            if k < s.len() - 1 {
                assert(s.drop_last()[k] == s[k]);
            }
        }
        n
    } else {
        assert(s.take(s.len() as int) =~= s);
        s.len() as int
    }
}

proof fn lemma_start_trimmed(s: Seq<char>) -> (i: int)
    ensures
        0 <= i <= s.len(),
        start_trimmed(s) == s.skip(i),
        forall|k: int| 0 <= k < i ==> white_space(#[trigger] s[k]),
        i < s.len() ==> !white_space(s[i]),
    decreases s.len(),
{
    if s.len() > 0 && white_space(s[0]) {
        let i = lemma_start_trimmed(s.skip(1));
        assert(s.skip(1).skip(i) =~= s.skip(i + 1));
        assert forall|k: int| 0 <= k < i + 1 implies white_space(#[trigger] s[k]) by {
            if k > 0 {
                assert(s.skip(1)[k - 1] == s[k]);
            }
        }
        i + 1
    } else {
        assert(s.skip(0) =~= s);
        0
    }
}

/// Among the first 128 characters the space, the tab and those that end a line or a page are white
/// space, and no other.
pub proof fn common_white_space(c: char)
    requires
        (c as u32) < 128,
    ensures
        white_space(c) <==> c == ' ' || c == '\t' || c == '\n' || c == '\r' || c as u32 == 11
            || c as u32 == 12,
{
}

/// Joined texts stand in their order with one separator between any two.
pub proof fn separators_stand_between(a: Seq<Seq<char>>, b: Seq<Seq<char>>, separator: Seq<char>)
    requires
        a.len() > 0,
        b.len() > 0,
    ensures
        joined_by(a + b, separator) == joined_by(a, separator) + separator + joined_by(
            b,
            separator,
        ),
        a.len() == 1 ==> joined_by(a, separator) == a[0],
        joined_by(Seq::empty(), separator).len() == 0,
    decreases b.len(),
{
    assert((a + b).last() == b.last());
    if b.len() == 1 {
        assert((a + b).drop_last() =~= a);
        assert(b[0] == b.last());
    } else {
        separators_stand_between(a, b.drop_last(), separator);
        assert((a + b).drop_last() =~= a + b.drop_last());
        assert(joined_by(a + b, separator) =~= joined_by(a, separator) + separator + joined_by(
            b,
            separator,
        ));
    }
}

/// A number is written without zeros in front.
pub proof fn decimal_has_no_leading_zero(n: nat)
    ensures
        n > 0 ==> decimal(n)[0] != '0',
        n == 0 ==> decimal(n) == seq!['0'],
    decreases n,
{
    if n >= 10 {
        decimal_has_no_leading_zero(n / 10);
        digits_read_back(n / 10);
        assert(decimal(n)[0] == decimal(n / 10)[0]);
    }
}

/// A number that is filled up with zeros still is that number, and is as wide as it was to be, or
/// wider where it needs to be.
pub proof fn padded_number_reads_back(n: nat, width: int)
    ensures
        digits_value(padded(n, width)) == n,
        all_digits(padded(n, width)),
        padded(n, width).len() >= width,
        padded(n, width).len() == width || padded(n, width) == decimal(n),
{
    digits_read_back(n);
    let k = if width - decimal(n).len() > 0 {
        width - decimal(n).len()
    } else {
        0
    };
    lemma_zeros_in_front(k as nat, decimal(n));
    assert(padded(n, width) =~= zeros(k) + decimal(n));
    if k == 0 {
        assert(padded(n, width) =~= decimal(n));
    }
}

proof fn lemma_zeros_in_front(k: nat, s: Seq<char>)
    ensures
        digits_value(zeros(k as int) + s) == digits_value(s),
    decreases s.len(), k,
{
    let z = zeros(k as int);
    if s.len() > 0 {
        assert((z + s).drop_last() =~= z + s.drop_last());
        lemma_zeros_in_front(k, s.drop_last());
    } else {
        assert(z + s =~= z);
        if k > 0 {
            let y = zeros(k - 1);
            assert(z.drop_last() =~= y);
            assert(z.last() == '0');
            lemma_zeros_in_front((k - 1) as nat, s);
            assert(y + s =~= y);
        }
    }
}

/// A small number is read from its digits, with or without a plus sign, however many zeros stand in
/// front. What is above 255, empty, or has anything else in it is none.
pub proof fn small_numbers_are_read(n: nat, zeros_in_front: nat)
    ensures
        n <= 255 ==> small_number(zeros(zeros_in_front as int) + decimal(n)) == Some(n as u8),
        n <= 255 ==> small_number(seq!['+'] + decimal(n)) == Some(n as u8),
        n > 255 ==> small_number(decimal(n)) is None,
        small_number(Seq::empty()) is None,
        forall|s: Seq<char>, i: int|
            0 <= i < s.len() && !('0' <= #[trigger] s[i] <= '9') && (i > 0 || s[i] != '+')
                ==> small_number(s) is None,
{
    digits_read_back(n);
    lemma_zeros_in_front(zeros_in_front, decimal(n));
    let z = zeros(zeros_in_front as int) + decimal(n);
    assert(all_digits(z));
    let p = seq!['+'] + decimal(n);
    assert(p.skip(1) =~= decimal(n));
    assert forall|s: Seq<char>, i: int|
        0 <= i < s.len() && !('0' <= #[trigger] s[i] <= '9') && (i > 0 || s[i]
            != '+') implies small_number(s) is None by {
        if s[0] == '+' {
            assert(s.skip(1)[i - 1] == s[i]);
        }
    }
}

/// Replacing goes through a text from left to right: each occurrence gives the text that it is
/// replaced by, and any other character itself.
pub proof fn replacing_goes_through_the_text(
    a: Seq<char>,
    b: Seq<char>,
    c: char,
    by: Seq<char>,
    other: char,
)
    requires
        other != c,
    ensures
        replaced(a + b, c, by) == replaced(a, c, by) + replaced(b, c, by),
        replaced(seq![c], c, by) == by,
        replaced(seq![other], c, by) == seq![other],
    decreases b.len(),
{
    reveal_with_fuel(replaced, 2);
    assert(seq![c].drop_last() =~= Seq::<char>::empty());
    assert(seq![other].drop_last() =~= Seq::<char>::empty());
    assert(replaced(seq![c], c, by) =~= by);
    assert(replaced(seq![other], c, by) =~= seq![other]);
    if b.len() == 0 {
        assert(a + b =~= a);
        assert(replaced(a, c, by) + replaced(b, c, by) =~= replaced(a, c, by));
    } else {
        replacing_goes_through_the_text(a, b.drop_last(), c, by, other);
        assert((a + b).drop_last() =~= a + b.drop_last());
        assert((a + b).last() == b.last());
        assert(replaced(a + b, c, by) =~= replaced(a, c, by) + replaced(b, c, by));
    }
}

} // verus!
