//! File system paths as byte strings, compared and taken apart by their components.
//!
//! A path keeps the bytes that it was made of. Its components are the root (`/`, where the bytes
//! start with one), a leading `.`, and every other segment between slashes that is neither empty
//! nor `.`. Two paths are the same path when their components are.

use vstd::prelude::*;

use crate::text;
use crate::text::text_lossy;

verus! {

/// The byte `/`.
pub const SLASH: u8 = 47;

/// The byte `.`.
pub const DOT: u8 = 46;

/// A file system path.
#[derive(Debug)]
pub struct FsPath {
    pub bytes: Vec<u8>,
}

impl View for FsPath {
    type V = Seq<u8>;

    open spec fn view(&self) -> Seq<u8> {
        self.bytes@
    }
}

/// The paths of a list, each by its bytes.
pub open spec fn path_views(paths: Seq<FsPath>) -> Seq<Seq<u8>> {
    paths.map_values(|p: FsPath| p@)
}

/// The end of the segment that starts at `i`: the next slash, or the end of the bytes.
pub open spec fn segment_end(b: Seq<u8>, i: int) -> int
    decreases b.len() - i,
{
    if i >= b.len() || i < 0 {
        b.len() as int
    } else if b[i] == SLASH {
        i
    } else {
        segment_end(b, i + 1)
    }
}

/// Whether the segment from `start` to `end` is a component: it is not empty, and it is no `.`
/// except at the very beginning of a path.
pub open spec fn is_component(b: Seq<u8>, start: int, end: int) -> bool {
    &&& start < end
    &&& !(start > 0 && end == start + 1 && b[start] == DOT)
}

/// The components at or after `i`, as pairs of start and end.
pub open spec fn spans_from(b: Seq<u8>, i: int) -> Seq<(int, int)>
    decreases b.len() + 1 - i,
    when 0 <= i
{
    if i >= b.len() {
        Seq::empty()
    } else {
        proof {
            lemma_segment_end(b, i);
        }
        let end = segment_end(b, i);
        let rest = spans_from(b, end + 1);
        if is_component(b, i, end) {
            seq![(i, end)] + rest
        } else {
            rest
        }
    }
}

/// Whether a path starts at the root.
pub open spec fn is_rooted(b: Seq<u8>) -> bool {
    b.len() > 0 && b[0] == SLASH
}

/// All components of a path, as pairs of start and end. The root is the first slash.
pub open spec fn spans(b: Seq<u8>) -> Seq<(int, int)> {
    if is_rooted(b) {
        seq![(0int, 1int)] + spans_from(b, 1)
    } else {
        spans_from(b, 0)
    }
}

/// The components of a path, each by its bytes.
pub open spec fn components(b: Seq<u8>) -> Seq<Seq<u8>> {
    spans(b).map_values(|s: (int, int)| b.subrange(s.0, s.1))
}

/// Whether two spellings name the same path.
pub open spec fn same_path(a: Seq<u8>, b: Seq<u8>) -> bool {
    components(a) == components(b)
}

/// Whether a list holds the path, in any spelling.
pub open spec fn has_path(paths: Seq<Seq<u8>>, p: Seq<u8>) -> bool {
    exists|i: int| 0 <= i < paths.len() && same_path(#[trigger] paths[i], p)
}

/// Whether no path occurs twice in a list, in any spelling.
pub open spec fn distinct_paths(paths: Seq<Seq<u8>>) -> bool {
    forall|i: int, j: int|
        0 <= i < j < paths.len() ==> !same_path(#[trigger] paths[i], #[trigger] paths[j])
}

/// The root component.
pub open spec fn root_component() -> Seq<u8> {
    seq![SLASH]
}

/// The component that stands for the directory itself.
pub open spec fn here_component() -> Seq<u8> {
    seq![DOT]
}

/// The component that stands for the directory above.
pub open spec fn up_component() -> Seq<u8> {
    seq![DOT, DOT]
}

/// Whether a component is a proper name.
pub open spec fn is_name(c: Seq<u8>) -> bool {
    c != root_component() && c != here_component() && c != up_component()
}

/// The path without its last component: nothing for the empty path and for the root.
pub open spec fn parent_of(b: Seq<u8>) -> Option<Seq<u8>> {
    let s = spans(b);
    if s.len() == 0 || components(b).last() == root_component() {
        None
    } else if s.len() == 1 {
        Some(Seq::empty())
    } else {
        Some(b.take(s[s.len() - 2].1))
    }
}

/// The last component, where it is a proper name.
pub open spec fn file_name_of(b: Seq<u8>) -> Option<Seq<u8>> {
    let c = components(b);
    if c.len() > 0 && is_name(c.last()) {
        Some(c.last())
    } else {
        None
    }
}

/// One path put behind another. A rooted path replaces what stands before it.
pub open spec fn joined(base: Seq<u8>, p: Seq<u8>) -> Seq<u8> {
    if is_rooted(p) {
        p
    } else if base.len() > 0 && base.last() != SLASH {
        base.push(SLASH) + p
    } else {
        base + p
    }
}

/// Whether the components of a path start with those of another.
pub open spec fn path_starts_with(b: Seq<u8>, base: Seq<u8>) -> bool {
    components(base).is_prefix_of(components(b))
}

/// What is left of a path behind the components of another, where it starts with them.
pub open spec fn stripped(b: Seq<u8>, base: Seq<u8>) -> Option<Seq<u8>> {
    let s = spans(b);
    let k = spans(base).len();
    if !path_starts_with(b, base) {
        None
    } else if s.len() == k {
        Some(Seq::empty())
    } else {
        Some(b.subrange(s[k as int].0, s.last().1))
    }
}

/// A segment ends inside the bytes, at a slash or at their end, and holds no slash.
pub proof fn lemma_segment_end(b: Seq<u8>, i: int)
    requires
        0 <= i <= b.len(),
    ensures
        i <= segment_end(b, i) <= b.len(),
        segment_end(b, i) < b.len() ==> b[segment_end(b, i)] == SLASH,
        forall|j: int| i <= j < segment_end(b, i) ==> b[j] != SLASH,
    decreases b.len() - i,
{
    if i < b.len() && b[i] != SLASH {
        lemma_segment_end(b, i + 1);
    }
}

proof fn lemma_spans_from_bounds(b: Seq<u8>, i: int)
    requires
        0 <= i,
    ensures
        forall|k: int|
            0 <= k < spans_from(b, i).len() ==> i <= (#[trigger] spans_from(b, i)[k]).0
                < spans_from(b, i)[k].1 <= b.len(),
    decreases b.len() + 1 - i,
{
    if i < b.len() {
        lemma_segment_end(b, i);
        let end = segment_end(b, i);
        lemma_spans_from_bounds(b, end + 1);
        let rest = spans_from(b, end + 1);
        if is_component(b, i, end) {
            assert forall|k: int| 0 <= k < spans_from(b, i).len() implies i <= (
            #[trigger] spans_from(b, i)[k]).0 < spans_from(b, i)[k].1 <= b.len() by {
                if k > 0 {
                    assert(spans_from(b, i)[k] == rest[k - 1]);
                }
            }
        }
    }
}

/// Every component lies inside the path and is not empty.
pub proof fn lemma_spans_bounds(b: Seq<u8>)
    ensures
        forall|k: int|
            0 <= k < spans(b).len() ==> 0 <= (#[trigger] spans(b)[k]).0 < spans(b)[k].1 <= b.len(),
{
    lemma_spans_from_bounds(b, 0);
    lemma_spans_from_bounds(b, 1);
}

proof fn lemma_spans_from_apart(b: Seq<u8>, i: int, k: int)
    requires
        0 <= i,
        0 <= k < spans_from(b, i).len() - 1,
    ensures
        spans_from(b, i)[k].1 <= spans_from(b, i)[k + 1].0,
    decreases b.len() + 1 - i,
{
    lemma_segment_end(b, i);
    let end = segment_end(b, i);
    lemma_spans_from_bounds(b, end + 1);
    let rest = spans_from(b, end + 1);
    if is_component(b, i, end) {
        assert(spans_from(b, i) =~= seq![(i, end)] + rest);
        if k > 0 {
            lemma_spans_from_apart(b, end + 1, k - 1);
        }
    } else {
        lemma_spans_from_apart(b, end + 1, k);
    }
}

/// A path is longer than the one it is in.
pub proof fn lemma_parent_shorter(b: Seq<u8>)
    ensures
        parent_of(b) is Some ==> parent_of(b)->0.len() < b.len(),
{
    let s = spans(b);
    lemma_spans_bounds(b);
    let n = s.len() as int;
    if n >= 2 {
        assert(0 <= s[n - 1].0 < s[n - 1].1 <= b.len());
        assert(0 <= s[n - 2].0 < s[n - 2].1 <= b.len());
        if is_rooted(b) {
            lemma_spans_from_bounds(b, 1);
            if n > 2 {
                lemma_spans_from_apart(b, 1, n - 3);
            }
        } else {
            lemma_spans_from_apart(b, 0, n - 2);
        }
    } else if n == 1 {
        assert(0 <= s[0].0 < s[0].1 <= b.len());
    }
}

/// The directories that a path is in, from the innermost outwards.
pub open spec fn ancestors_of(b: Seq<u8>) -> Seq<Seq<u8>>
    decreases b.len(),
{
    proof {
        lemma_parent_shorter(b);
    }
    match parent_of(b) {
        Some(p) => seq![p] + ancestors_of(p),
        None => Seq::empty(),
    }
}

/// A component by its start and end.
#[derive(Clone, Copy, Debug)]
pub struct Span {
    pub start: usize,
    pub end: usize,
}

/// The pairs of a list of components.
pub open spec fn span_views(s: Seq<Span>) -> Seq<(int, int)> {
    s.map_values(|x: Span| (x.start as int, x.end as int))
}

/// Finds the components of a path.
pub fn find_spans(b: &[u8]) -> (r: Vec<Span>)
    ensures
        span_views(r@) == spans(b@),
{
    let mut out: Vec<Span> = Vec::new();
    let mut i: usize = 0;
    if b.len() > 0 && b[0] == SLASH {
        out.push(Span { start: 0, end: 1 });
        i = 1;
    }
    assert(span_views(out@) + spans_from(b@, i as int) =~= spans(b@));
    while i < b.len()
        invariant
            0 <= i,
            span_views(out@) + spans_from(b@, i as int) == spans(b@),
        decreases b.len() - i,
    {
        let mut end: usize = i;
        while end < b.len() && b[end] != SLASH
            invariant
                i <= end <= b.len(),
                segment_end(b@, i as int) == segment_end(b@, end as int),
            decreases b.len() - end,
        {
            end += 1;
        }
        let ghost before = span_views(out@);
        if i < end && !(i > 0 && end == i + 1 && b[i] == DOT) {
            out.push(Span { start: i, end });
            assert(span_views(out@) =~= before.push((i as int, end as int)));
            assert(before + (seq![(i as int, end as int)] + spans_from(b@, end + 1)) =~= before.push(
                (i as int, end as int),
            ) + spans_from(b@, end + 1));
        }
        if end == b.len() {
            assert(spans_from(b@, end + 1) =~= Seq::empty());
            assert(spans_from(b@, end as int) =~= Seq::empty());
            i = end;
        } else {
            i = end + 1;
        }
    }
    assert(spans_from(b@, i as int) =~= Seq::empty());
    assert(span_views(out@) + Seq::<(int, int)>::empty() =~= span_views(out@));
    out
}

/// A copy of a part of some bytes.
pub fn slice_copy(b: &[u8], start: usize, end: usize) -> (r: Vec<u8>)
    requires
        start <= end <= b@.len(),
    ensures
        r@ == b@.subrange(start as int, end as int),
{
    let mut out: Vec<u8> = Vec::new();
    let mut i: usize = start;
    while i < end
        invariant
            start <= i <= end <= b@.len(),
            out@ == b@.subrange(start as int, i as int),
        decreases end - i,
    {
        out.push(b[i]);
        i += 1;
        assert(out@ =~= b@.subrange(start as int, i as int));
    }
    out
}

/// Whether two parts of two byte strings are equal.
fn same_slice(a: &[u8], s: Span, b: &[u8], t: Span) -> (r: bool)
    requires
        s.start <= s.end <= a@.len(),
        t.start <= t.end <= b@.len(),
    ensures
        r == (a@.subrange(s.start as int, s.end as int) == b@.subrange(
            t.start as int,
            t.end as int,
        )),
{
    let ghost x = a@.subrange(s.start as int, s.end as int);
    let ghost y = b@.subrange(t.start as int, t.end as int);
    if s.end - s.start != t.end - t.start {
        assert(x.len() != y.len());
        return false;
    }
    let n: usize = s.end - s.start;
    let mut i: usize = 0;
    while i < n
        invariant
            i <= n,
            n == s.end - s.start == t.end - t.start,
            s.end <= a@.len(),
            t.end <= b@.len(),
            x == a@.subrange(s.start as int, s.end as int),
            y == b@.subrange(t.start as int, t.end as int),
            forall|j: int| 0 <= j < i ==> x[j] == y[j],
        decreases n - i,
    {
        if a[s.start + i] != b[t.start + i] {
            assert(x[i as int] != y[i as int]);
            return false;
        }
        i += 1;
    }
    assert(x =~= y);
    true
}

proof fn lemma_component_at(b: Seq<u8>, s: Seq<Span>, k: int)
    requires
        span_views(s) == spans(b),
        0 <= k < s.len(),
    ensures
        s[k].start < s[k].end <= b.len(),
        components(b).len() == s.len(),
        components(b)[k] == b.subrange(s[k].start as int, s[k].end as int),
{
    lemma_spans_bounds(b);
    assert(span_views(s)[k] == (s[k].start as int, s[k].end as int));
    assert(spans(b)[k] == (s[k].start as int, s[k].end as int));
}

/// Whether the first components of a path are all those of another.
fn starts_with_spans(b: &[u8], s: &Vec<Span>, base: &[u8], t: &Vec<Span>) -> (r: bool)
    requires
        span_views(s@) == spans(b@),
        span_views(t@) == spans(base@),
    ensures
        r == path_starts_with(b@, base@),
{
    assert(s.len() == components(b@).len()) by {
        assert(span_views(s@).len() == s.len());
    }
    assert(t.len() == components(base@).len()) by {
        assert(span_views(t@).len() == t.len());
    }
    if t.len() > s.len() {
        return false;
    }
    let mut i: usize = 0;
    while i < t.len()
        invariant
            i <= t.len() <= s.len(),
            span_views(s@) == spans(b@),
            span_views(t@) == spans(base@),
            s.len() == components(b@).len(),
            t.len() == components(base@).len(),
            forall|j: int| 0 <= j < i ==> components(b@)[j] == components(base@)[j],
        decreases t.len() - i,
    {
        proof {
            lemma_component_at(b@, s@, i as int);
            lemma_component_at(base@, t@, i as int);
        }
        if !same_slice(b, s[i], base, t[i]) {
            assert(components(b@).take(t.len() as int)[i as int] != components(base@)[i as int]);
            return false;
        }
        i += 1;
    }
    assert(components(base@) =~= components(b@).subrange(0, t.len() as int));
    true
}

impl FsPath {
    /// The path spelled by a text.
    pub fn new(text: &str) -> (r: FsPath)
        ensures
            r@ == vstd::utf8::encode_utf8(text@),
    {
        let b = text.as_bytes();
        let r = FsPath { bytes: slice_copy(b, 0, b.len()) };
        assert(r@ =~= b@);
        r
    }

    /// The path made of the given bytes.
    pub fn from_bytes(bytes: Vec<u8>) -> (r: FsPath)
        ensures
            r@ == bytes@,
    {
        FsPath { bytes }
    }

    /// The bytes of the path.
    pub fn as_bytes(&self) -> (r: &[u8])
        ensures
            r@ == self@,
    {
        self.bytes.as_slice()
    }

    /// Whether two spellings name the same path.
    pub fn same(&self, other: &FsPath) -> (r: bool)
        ensures
            r == same_path(self@, other@),
    {
        let s = find_spans(self.as_bytes());
        let t = find_spans(other.as_bytes());
        assert(span_views(s@).len() == s.len());
        assert(span_views(t@).len() == t.len());
        if s.len() != t.len() {
            assert(components(self@).len() != components(other@).len());
            return false;
        }
        let r = starts_with_spans(self.as_bytes(), &s, other.as_bytes(), &t);
        assert(components(self@).subrange(0, components(self@).len() as int) =~= components(
            self@,
        ));
        r
    }

    /// The path without its last component, where it has one above the root.
    pub fn parent(&self) -> (r: Option<FsPath>)
        ensures
            match r {
                Some(p) => parent_of(self@) == Some(p@),
                None => parent_of(self@) is None,
            },
    {
        let s = find_spans(self.as_bytes());
        assert(span_views(s@).len() == s.len());
        if s.len() == 0 {
            return None;
        }
        let last = s[s.len() - 1];
        proof {
            lemma_component_at(self@, s@, s.len() - 1);
        }
        if last.start + 1 == last.end && self.bytes[last.start] == SLASH {
            assert(components(self@).last() =~= root_component());
            return None;
        }
        assert(components(self@).last() != root_component()) by {
            if components(self@).last() == root_component() {
                assert(components(self@).last().len() == 1);
                assert(components(self@).last()[0] == SLASH);
            }
        }
        if s.len() == 1 {
            let r = FsPath { bytes: Vec::new() };
            assert(r@ =~= Seq::empty());
            return Some(r);
        }
        let above = s[s.len() - 2];
        proof {
            lemma_component_at(self@, s@, s.len() - 2);
            assert(span_views(s@)[s.len() - 2] == (above.start as int, above.end as int));
        }
        Some(FsPath { bytes: slice_copy(self.as_bytes(), 0, above.end) })
    }

    /// The last component, where it is a proper name.
    pub fn file_name(&self) -> (r: Option<Vec<u8>>)
        ensures
            match r {
                Some(n) => file_name_of(self@) == Some(n@),
                None => file_name_of(self@) is None,
            },
    {
        let s = find_spans(self.as_bytes());
        assert(span_views(s@).len() == s.len());
        if s.len() == 0 {
            return None;
        }
        let last = s[s.len() - 1];
        proof {
            lemma_component_at(self@, s@, s.len() - 1);
        }
        let ghost c = components(self@).last();
        let n: usize = last.end - last.start;
        if n == 1 && (self.bytes[last.start] == SLASH || self.bytes[last.start] == DOT) {
            assert(c =~= root_component() || c =~= here_component());
            return None;
        }
        if n == 2 && self.bytes[last.start] == DOT && self.bytes[last.start + 1] == DOT {
            assert(c =~= up_component());
            return None;
        }
        assert(is_name(c)) by {
            assert(c.len() == n);
            if c == up_component() {
                assert(c[0] == DOT && c[1] == DOT);
            }
            if c == root_component() {
                assert(c[0] == SLASH);
            }
            if c == here_component() {
                assert(c[0] == DOT);
            }
        }
        Some(slice_copy(self.as_bytes(), last.start, last.end))
    }

    /// The last component as text, where it is a proper name.
    pub fn file_name_text(&self) -> (r: Option<String>)
        ensures
            match r {
                Some(n) => file_name_of(self@) is Some && n@ == text::lossy_text(file_name_of(self@)->0),
                None => file_name_of(self@) is None,
            },
    {
        match self.file_name() {
            Some(n) => Some(text_lossy(n.as_slice())),
            None => None,
        }
    }

    /// The path as text.
    pub fn to_text(&self) -> (r: String)
        ensures
            r@ == text::lossy_text(self@),
    {
        text_lossy(self.as_bytes())
    }

    /// Whether the path starts at the root.
    pub fn is_absolute(&self) -> (r: bool)
        ensures
            r == is_rooted(self@),
    {
        self.bytes.len() > 0 && self.bytes[0] == SLASH
    }

    /// The directories that the path is in, from the innermost outwards.
    pub fn ancestors(&self) -> (r: Vec<FsPath>)
        ensures
            path_views(r@) == ancestors_of(self@),
    {
        let mut out: Vec<FsPath> = Vec::new();
        let mut at = self.clone();
        assert(path_views(out@) + ancestors_of(at@) =~= ancestors_of(self@));
        loop
            invariant
                path_views(out@) + ancestors_of(at@) == ancestors_of(self@),
            ensures
                path_views(out@) == ancestors_of(self@),
            decreases at@.len(),
        {
            match at.parent() {
                Some(p) => {
                    proof {
                        lemma_parent_shorter(at@);
                    }
                    let ghost before = path_views(out@);
                    out.push(p.clone());
                    proof {
                        assert(path_views(out@) =~= before.push(p@));
                        assert(before + (seq![p@] + ancestors_of(p@)) =~= before.push(p@)
                            + ancestors_of(p@));
                    }
                    at = p;
                },
                None => {
                    assert(path_views(out@) + Seq::<Seq<u8>>::empty() =~= path_views(out@));
                    break ;
                },
            }
        }
        out
    }

    /// Another path put behind this one.
    pub fn join(&self, other: &FsPath) -> (r: FsPath)
        ensures
            r@ == joined(self@, other@),
    {
        self.join_bytes(other.as_bytes())
    }

    /// Bytes put behind this path as a further path.
    pub fn join_bytes(&self, other: &[u8]) -> (r: FsPath)
        ensures
            r@ == joined(self@, other@),
    {
        let n = other.len();
        let mut tail = slice_copy(other, 0, n);
        assert(tail@ =~= other@);
        if other.len() > 0 && other[0] == SLASH {
            return FsPath { bytes: tail };
        }
        let mut out = slice_copy(self.as_bytes(), 0, self.bytes.len());
        assert(out@ =~= self@);
        if self.bytes.len() > 0 && self.bytes[self.bytes.len() - 1] != SLASH {
            out.push(SLASH);
        }
        out.append(&mut tail);
        FsPath { bytes: out }
    }

    /// Whether the components of the path start with those of another.
    pub fn starts_with(&self, base: &FsPath) -> (r: bool)
        ensures
            r == path_starts_with(self@, base@),
    {
        let s = find_spans(self.as_bytes());
        let t = find_spans(base.as_bytes());
        starts_with_spans(self.as_bytes(), &s, base.as_bytes(), &t)
    }

    /// What is left behind the components of another path, where this one starts with them.
    pub fn strip_prefix(&self, base: &FsPath) -> (r: Option<FsPath>)
        ensures
            match r {
                Some(p) => stripped(self@, base@) == Some(p@),
                None => stripped(self@, base@) is None,
            },
    {
        let s = find_spans(self.as_bytes());
        let t = find_spans(base.as_bytes());
        assert(span_views(s@).len() == s.len());
        assert(span_views(t@).len() == t.len());
        if !starts_with_spans(self.as_bytes(), &s, base.as_bytes(), &t) {
            return None;
        }
        if s.len() == t.len() {
            let r = FsPath { bytes: Vec::new() };
            assert(r@ =~= Seq::empty());
            return Some(r);
        }
        assert(t.len() <= s.len());
        let first = s[t.len()];
        let last = s[s.len() - 1];
        proof {
            lemma_component_at(self@, s@, t.len() as int);
            lemma_component_at(self@, s@, s.len() - 1);
            assert(span_views(s@)[t.len() as int] == (first.start as int, first.end as int));
            assert(span_views(s@)[s.len() - 1] == (last.start as int, last.end as int));
            lemma_spans_ordered(self@, t.len() as int, s.len() - 1);
        }
        Some(FsPath { bytes: slice_copy(self.as_bytes(), first.start, last.end) })
    }
}

proof fn lemma_spans_from_ordered(b: Seq<u8>, i: int, j: int, k: int)
    requires
        0 <= i,
        0 <= j <= k < spans_from(b, i).len(),
    ensures
        spans_from(b, i)[j].0 <= spans_from(b, i)[k].0,
    decreases b.len() + 1 - i,
{
    lemma_segment_end(b, i);
    let end = segment_end(b, i);
    lemma_spans_from_bounds(b, end + 1);
    if is_component(b, i, end) {
        if j > 0 {
            lemma_spans_from_ordered(b, end + 1, j - 1, k - 1);
        }
    } else {
        lemma_spans_from_ordered(b, end + 1, j, k);
    }
}

/// Components stand in the order of their places.
pub proof fn lemma_spans_ordered(b: Seq<u8>, j: int, k: int)
    requires
        0 <= j <= k < spans(b).len(),
    ensures
        spans(b)[j].0 <= spans(b)[k].0,
{
    lemma_spans_bounds(b);
    if is_rooted(b) {
        if j > 0 {
            lemma_spans_from_ordered(b, 1, j - 1, k - 1);
        }
    } else {
        lemma_spans_from_ordered(b, 0, j, k);
    }
}

impl Clone for FsPath {
    fn clone(&self) -> (r: FsPath)
        ensures
            r@ == self@,
    {
        let r = FsPath { bytes: slice_copy(self.bytes.as_slice(), 0, self.bytes.len()) };
        assert(r@ =~= self@);
        r
    }
}

impl PartialEq for FsPath {
    fn eq(&self, other: &FsPath) -> (r: bool) {
        self.same(other)
    }
}

impl vstd::std_specs::cmp::PartialEqSpecImpl for FsPath {
    open spec fn obeys_eq_spec() -> bool {
        true
    }

    open spec fn eq_spec(&self, other: &FsPath) -> bool {
        same_path(self@, other@)
    }
}

impl Eq for FsPath {
}

/// The components at or after a place, each by its bytes.
spec fn parts(b: Seq<u8>, i: int) -> Seq<Seq<u8>> {
    spans_from(b, i).map_values(|s: (int, int)| b.subrange(s.0, s.1))
}

proof fn lemma_components(b: Seq<u8>)
    ensures
        is_rooted(b) ==> components(b) == seq![root_component()] + parts(b, 1),
        !is_rooted(b) ==> components(b) == parts(b, 0),
{
    if is_rooted(b) {
        assert(b.subrange(0, 1) =~= root_component());
        assert(components(b) =~= seq![root_component()] + parts(b, 1));
    }
}

proof fn lemma_parts_step(b: Seq<u8>, i: int)
    requires
        0 <= i < b.len(),
    ensures
        i <= segment_end(b, i) <= b.len(),
        is_component(b, i, segment_end(b, i)) ==> parts(b, i) == seq![
            b.subrange(i, segment_end(b, i)),
        ] + parts(b, segment_end(b, i) + 1),
        !is_component(b, i, segment_end(b, i)) ==> parts(b, i) == parts(b, segment_end(b, i) + 1),
{
    lemma_segment_end(b, i);
    let end = segment_end(b, i);
    if is_component(b, i, end) {
        assert(parts(b, i) =~= seq![b.subrange(i, end)] + parts(b, end + 1));
    }
}

proof fn lemma_same_segment(a: Seq<u8>, b: Seq<u8>, i: int, end: int)
    requires
        0 <= i <= end <= a.len(),
        end <= b.len(),
        forall|j: int| i <= j < end ==> a[j] == b[j] && a[j] != SLASH,
        end == a.len() || a[end] == SLASH,
        end == b.len() || b[end] == SLASH,
    ensures
        segment_end(a, i) == end,
        segment_end(b, i) == end,
{
    lemma_segment_end(a, i);
    lemma_segment_end(b, i);
    if segment_end(a, i) < end {
        assert(a[segment_end(a, i)] != SLASH);
    }
    if segment_end(b, i) < end {
        assert(b[segment_end(b, i)] != SLASH);
    }
}

/// What stands before a slash has its own components, whatever stands behind it.
proof fn lemma_parts_at_slash(x: Seq<u8>, y: Seq<u8>, i: int)
    requires
        0 <= i <= x.len(),
    ensures
        parts(x + seq![SLASH] + y, i) == parts(x, i) + parts(
            x + seq![SLASH] + y,
            x.len() as int + 1,
        ),
    decreases x.len() - i,
{
    let b = x + seq![SLASH] + y;
    let n = x.len() as int;
    assert(b[n] == SLASH);
    if i == n {
        lemma_segment_end(b, i);
        assert(parts(b, i) =~= parts(x, i) + parts(b, n + 1));
    } else {
        lemma_segment_end(x, i);
        let end = segment_end(x, i);
        assert forall|j: int| i <= j < end implies x[j] == b[j] && x[j] != SLASH by {
            assert(b[j] == x[j]);
        }
        lemma_same_segment(x, b, i, end);
        lemma_parts_step(x, i);
        lemma_parts_step(b, i);
        assert(b[i] == x[i]);
        assert(b.subrange(i, end) =~= x.subrange(i, end));
        if end < n {
            lemma_parts_at_slash(x, y, end + 1);
            assert(parts(b, i) =~= parts(x, i) + parts(b, n + 1));
        } else {
            assert(parts(x, end + 1) =~= Seq::<Seq<u8>>::empty());
            assert(parts(b, i) =~= parts(x, i) + parts(b, n + 1));
        }
    }
}

/// A last segment that is a proper name is one component.
proof fn lemma_last_name(b: Seq<u8>, i: int, name: Seq<u8>)
    requires
        0 <= i <= b.len(),
        b.skip(i) == name,
        name.len() > 0,
        !name.contains(SLASH),
        i > 0 ==> name != here_component(),
    ensures
        parts(b, i) == seq![name],
{
    let n = b.len() as int;
    lemma_segment_end(b, i);
    let end = segment_end(b, i);
    if end < n {
        assert(name[end - i] == b[end]);
        assert(name.contains(name[end - i]));
    }
    lemma_parts_step(b, i);
    assert(b.subrange(i, n) =~= name);
    if i > 0 && n == i + 1 && b[i] == DOT {
        assert(name =~= here_component());
    }
    assert(parts(b, n + 1) =~= Seq::<Seq<u8>>::empty());
    assert(parts(b, i) =~= seq![name]);
}

/// A name that is put behind a directory is one more component behind those of the directory, whether
/// or not the directory is written with a slash at its end.
pub proof fn joined_name_is_the_last_component(base: Seq<u8>, name: Seq<u8>)
    requires
        name.len() > 0,
        !name.contains(SLASH),
        name != here_component() || base.len() == 0,
    ensures
        components(joined(base, name)) == components(base).push(name),
{
    let b = joined(base, name);
    if is_rooted(name) {
        assert(name.contains(name[0]));
    }
    lemma_components(b);
    lemma_components(base);
    if base.len() == 0 {
        assert(b =~= name);
        assert(b.skip(0) =~= name);
        lemma_last_name(b, 0, name);
        assert(parts(base, 0) =~= Seq::<Seq<u8>>::empty());
        assert(components(b) =~= components(base).push(name));
    } else {
        let x = if base.last() == SLASH {
            base.drop_last()
        } else {
            base
        };
        let none = Seq::<u8>::empty();
        assert(b =~= x + seq![SLASH] + name);
        assert(b[0] == base[0]);
        let k = x.len() as int + 1;
        assert(b.skip(k) =~= name);
        lemma_last_name(b, k, name);
        let first: int = if is_rooted(base) {
            1
        } else {
            0
        };
        if first <= x.len() {
            lemma_parts_at_slash(x, name, first);
            if base.last() == SLASH {
                lemma_parts_at_slash(x, none, first);
                assert(base =~= x + seq![SLASH] + none);
                assert(parts(base, k) =~= Seq::<Seq<u8>>::empty());
                assert(parts(base, first) =~= parts(x, first));
            }
        } else {
            assert(base =~= seq![SLASH]);
            assert(parts(base, 1) =~= Seq::<Seq<u8>>::empty());
        }
        assert(components(b) =~= components(base).push(name));
    }
}

/// A path that starts at the root replaces what it is put behind.
pub proof fn rooted_path_replaces_the_base(base: Seq<u8>, p: Seq<u8>)
    requires
        p.len() > 0,
        p[0] == SLASH,
    ensures
        joined(base, p) == p,
{
}

/// Slashes at the end, several slashes in a row, and a `.` between slashes make no other path.
pub proof fn spelling_does_not_matter(x: Seq<u8>, y: Seq<u8>)
    requires
        x.len() > 0,
    ensures
        same_path(x + seq![SLASH], x),
        same_path(x + seq![SLASH, SLASH] + y, x + seq![SLASH] + y),
        same_path(x + seq![SLASH, DOT, SLASH] + y, x + seq![SLASH] + y),
{
    let none = Seq::<u8>::empty();
    let one = x + seq![SLASH];
    let n = x.len() as int;
    assert(one =~= x + seq![SLASH] + none);
    let a = x + seq![SLASH] + y;
    let b = x + seq![SLASH, SLASH] + y;
    let c = x + seq![SLASH, DOT, SLASH] + y;
    let xb = x + seq![SLASH];
    let xc = x + seq![SLASH, DOT];
    assert(b =~= x + seq![SLASH] + (seq![SLASH] + y));
    assert(c =~= x + seq![SLASH] + (seq![DOT, SLASH] + y));
    assert(b =~= xb + seq![SLASH] + y);
    assert(c =~= xc + seq![SLASH] + y);
    lemma_components(x);
    lemma_components(one);
    lemma_components(a);
    lemma_components(b);
    lemma_components(c);
    let first: int = if is_rooted(x) {
        1
    } else {
        0
    };
    lemma_parts_at_slash(x, none, first);
    assert(parts(one, n + 1) =~= Seq::<Seq<u8>>::empty());
    assert(parts(one, first) =~= parts(x, first));
    assert(one[0] == x[0] && a[0] == x[0] && b[0] == x[0] && c[0] == x[0]);
    lemma_parts_at_slash(x, y, first);
    lemma_parts_at_slash(x, seq![SLASH] + y, first);
    lemma_parts_at_slash(x, seq![DOT, SLASH] + y, first);
    assert(b[n + 1] == SLASH);
    lemma_segment_end(b, n + 1);
    lemma_parts_step(b, n + 1);
    assert(parts(b, n + 1) == parts(b, n + 2));
    assert(c[n + 1] == DOT && c[n + 2] == SLASH);
    lemma_same_segment(c, c, n + 1, n + 2);
    lemma_parts_step(c, n + 1);
    assert(parts(c, n + 1) == parts(c, n + 3));
    lemma_parts_moved(a, b, n + 1, 1);
    lemma_parts_moved(a, c, n + 1, 2);
}

/// What stands behind a slash has the same components wherever it stands.
proof fn lemma_parts_moved(a: Seq<u8>, b: Seq<u8>, i: int, by: int)
    requires
        0 < i,
        0 <= by,
        b.len() == a.len() + by,
        forall|j: int| i <= j < a.len() ==> a[j] == #[trigger] b[j + by],
    ensures
        parts(a, i) == parts(b, i + by),
    decreases a.len() + 1 - i,
{
    if i >= a.len() {
        assert(parts(a, i) =~= parts(b, i + by));
    } else {
        lemma_segment_end(a, i);
        lemma_segment_end(b, i + by);
        let end = segment_end(a, i);
        let far = segment_end(b, i + by);
        if far < end + by {
            assert(a[far - by] == b[far - by + by]);
        }
        if end + by < far {
            assert(a[end] == b[end + by]);
        }
        lemma_parts_step(a, i);
        lemma_parts_step(b, i + by);
        assert(a[i] == b[i + by]);
        assert(a.subrange(i, end) =~= b.subrange(i + by, far)) by {
            assert forall|j: int| i <= j < end implies a[j] == #[trigger] b[j + by] by {}
            assert forall|q: int| 0 <= q < end - i implies a.subrange(i, end)[q]
                == b.subrange(i + by, far)[q] by {
                assert(a[i + q] == b[i + q + by]);
            }
        }
        lemma_parts_moved(a, b, end + 1, by);
    }
}

proof fn lemma_spans_cut(b: Seq<u8>, i: int, k: int)
    requires
        0 <= i,
        0 <= k < spans_from(b, i).len(),
    ensures
        i < spans_from(b, i)[k].1 <= b.len(),
        spans_from(b.take(spans_from(b, i)[k].1), i) == spans_from(b, i).take(k + 1),
    decreases b.len() + 1 - i,
{
    lemma_spans_from_bounds(b, i);
    let all = spans_from(b, i);
    let e = all[k].1;
    assert(i <= all[k].0 < e <= b.len());
    let c = b.take(e);
    lemma_segment_end(b, i);
    let end = segment_end(b, i);
    let rest = spans_from(b, end + 1);
    lemma_spans_from_bounds(b, end + 1);
    lemma_segment_end(c, i);
    if is_component(b, i, end) {
        assert(all =~= seq![(i, end)] + rest);
        if k == 0 {
            lemma_same_segment(b, c, i, end);
            assert(spans_from(c, end + 1) =~= Seq::<(int, int)>::empty());
            assert(c[i] == b[i]);
            assert(spans_from(c, i) =~= all.take(1));
        } else {
            assert(rest[k - 1] == all[k]);
            lemma_same_segment(b, c, i, end);
            lemma_spans_cut(b, end + 1, k - 1);
            assert(c[i] == b[i]);
            assert(spans_from(c, i) =~= seq![(i, end)] + spans_from(c, end + 1));
            assert(spans_from(c, i) =~= all.take(k + 1));
        }
    } else {
        assert(rest[k] == all[k]);
        lemma_same_segment(b, c, i, end);
        lemma_spans_cut(b, end + 1, k);
        assert(c[i] == b[i]);
        assert(spans_from(c, i) =~= spans_from(c, end + 1));
    }
}

/// A path that is cut behind one of its components has the components up to there.
proof fn lemma_components_cut(b: Seq<u8>, k: int)
    requires
        0 <= k < spans(b).len(),
    ensures
        components(b.take(spans(b)[k].1)) == components(b).take(k + 1),
{
    lemma_spans_bounds(b);
    let e = spans(b)[k].1;
    let c = b.take(e);
    if is_rooted(b) {
        assert(c[0] == b[0]);
        if k == 0 {
            assert(spans_from(c, 1) =~= Seq::<(int, int)>::empty());
            assert(spans(c) =~= spans(b).take(1));
        } else {
            assert(spans(b)[k] == spans_from(b, 1)[k - 1]);
            lemma_spans_cut(b, 1, k - 1);
            assert(spans(c) =~= spans(b).take(k + 1));
        }
    } else {
        lemma_spans_cut(b, 0, k);
        assert(c[0] == b[0]);
        assert(spans(c) =~= spans(b).take(k + 1));
    }
    assert forall|q: int| 0 <= q < k + 1 implies components(c)[q] == components(b)[q] by {
        if q < k {
            lemma_ends_ordered(b, q, k);
        }
        assert(spans(c)[q] == spans(b)[q]);
        assert(c.subrange(spans(b)[q].0, spans(b)[q].1) =~= b.subrange(
            spans(b)[q].0,
            spans(b)[q].1,
        ));
    }
    assert(components(c) =~= components(b).take(k + 1));
}

proof fn lemma_ends_ordered(b: Seq<u8>, j: int, k: int)
    requires
        0 <= j <= k < spans(b).len(),
    ensures
        spans(b)[j].1 <= spans(b)[k].1,
    decreases k - j,
{
    if j < k {
        lemma_ends_ordered(b, j, k - 1);
        lemma_spans_bounds(b);
        let m = k - 1;
        if is_rooted(b) {
            if m > 0 {
                lemma_spans_from_apart(b, 1, m - 1);
            }
        } else {
            lemma_spans_from_apart(b, 0, m);
        }
    }
}

/// The directory above a path has all components of the path but the last. Only the empty path and
/// the root have none above them.
pub proof fn parent_has_all_components_but_the_last(b: Seq<u8>)
    ensures
        parent_of(b) is Some ==> components(b).len() > 0 && components(parent_of(b)->0)
            == components(b).drop_last(),
        parent_of(b) is None ==> components(b).len() == 0 || components(b).last()
            == root_component(),
        components(b).len() > 0 && components(b).last() != root_component() ==> parent_of(b)
            is Some,
{
    let s = spans(b);
    let n = s.len() as int;
    if parent_of(b) is Some {
        if n == 1 {
            let none = Seq::<u8>::empty();
            assert(components(none) =~= Seq::<Seq<u8>>::empty());
            assert(components(b).drop_last() =~= Seq::<Seq<u8>>::empty());
        } else {
            lemma_components_cut(b, n - 2);
            assert(components(b).drop_last() =~= components(b).take(n - 1));
        }
    }
}

/// The directory above a name in a directory is that directory, and the last component is the name.
pub proof fn parent_undoes_joining(base: Seq<u8>, name: Seq<u8>)
    requires
        name.len() > 0,
        !name.contains(SLASH),
        name != here_component(),
    ensures
        parent_of(joined(base, name)) is Some,
        same_path(parent_of(joined(base, name))->0, base),
        name != up_component() ==> file_name_of(joined(base, name)) == Some(name),
        name == up_component() ==> file_name_of(joined(base, name)) is None,
        path_starts_with(joined(base, name), base),
{
    joined_name_is_the_last_component(base, name);
    let b = joined(base, name);
    if name == root_component() {
        assert(name[0] == SLASH);
        assert(name.contains(name[0]));
    }
    parent_has_all_components_but_the_last(b);
    assert(components(base).push(name).drop_last() =~= components(base));
}

/// The directories above a path go up by one component each.
pub proof fn ancestors_go_up_one_by_one(b: Seq<u8>, k: int)
    requires
        0 <= k < ancestors_of(b).len(),
    ensures
        k + 1 <= components(b).len(),
        components(ancestors_of(b)[k]) == components(b).take(components(b).len() - 1 - k),
    decreases k,
{
    parent_has_all_components_but_the_last(b);
    let p = parent_of(b)->0;
    let n = components(b).len() as int;
    assert(ancestors_of(b) == seq![p] + ancestors_of(p));
    if k == 0 {
        assert(components(b).drop_last() =~= components(b).take(n - 1));
    } else {
        ancestors_go_up_one_by_one(p, k - 1);
        assert(ancestors_of(b)[k] == ancestors_of(p)[k - 1]);
        assert(components(b).drop_last().take(n - 1 - k) =~= components(b).take(n - 1 - k));
    }
}

/// A path starts with another exactly where the components of the other are its first ones; so a name
/// that only begins alike does not count.
pub proof fn starting_with_is_by_components(b: Seq<u8>, base: Seq<u8>)
    ensures
        path_starts_with(b, base) <==> components(base).len() <= components(b).len() && forall|i: int|
            0 <= i < components(base).len() ==> components(b)[i] == #[trigger] components(base)[i],
        path_starts_with(b, b),
        parent_of(b) is Some ==> path_starts_with(b, parent_of(b)->0) && !path_starts_with(
            parent_of(b)->0,
            b,
        ),
{
    parent_has_all_components_but_the_last(b);
    if components(base).len() <= components(b).len() && forall|i: int|
        0 <= i < components(base).len() ==> components(b)[i] == #[trigger] components(base)[i] {
        assert(components(b).take(components(base).len() as int) =~= components(base));
    }
}

/// What is left of a path behind the start of it has the remaining components.
pub proof fn stripped_path_has_the_remaining_components(b: Seq<u8>, base: Seq<u8>)
    requires
        path_starts_with(b, base),
    ensures
        stripped(b, base) is Some,
        components(stripped(b, base)->0) == components(b).skip(components(base).len() as int),
{
    let s = spans(b);
    let n = s.len() as int;
    let k = spans(base).len() as int;
    lemma_spans_bounds(b);
    if n == k {
        assert(components(Seq::<u8>::empty()) =~= Seq::<Seq<u8>>::empty());
        assert(components(b).skip(k) =~= Seq::<Seq<u8>>::empty());
    } else {
        let e = s[n - 1].1;
        lemma_components_cut(b, n - 1);
        let c = b.take(e);
        assert(components(b).take(n) =~= components(b));
        assert(components(c) == components(b));
        let from = s[k].0;
        if k == 0 {
            lemma_first_span(b);
            assert(b.subrange(from, e) =~= c);
            assert(components(b).skip(0) =~= components(b));
        } else {
            lemma_same_spans(b, k);
            lemma_span_starts_part(b, k);
            lemma_span_starts_part(c, k);
            let d = b.subrange(from, e);
            lemma_components(d);
            assert(d[0] == c[from]);
            assert(d =~= c.skip(from));
            lemma_parts_head(d, c, from);
        }
    }
}

proof fn lemma_first_span(b: Seq<u8>)
    requires
        spans(b).len() > 0,
    ensures
        spans(b)[0].0 == 0,
{
    if !is_rooted(b) && b.len() > 0 {
        lemma_segment_end(b, 0);
    }
}

/// Cutting a path behind its last component keeps all its spans.
proof fn lemma_same_spans(b: Seq<u8>, k: int)
    requires
        0 <= k < spans(b).len(),
    ensures
        spans(b.take(spans(b).last().1)) == spans(b),
{
    let n = spans(b).len() as int;
    let e = spans(b)[n - 1].1;
    lemma_spans_bounds(b);
    let c = b.take(e);
    assert(c[0] == b[0]);
    if is_rooted(b) {
        if n == 1 {
            assert(spans_from(c, 1) =~= Seq::<(int, int)>::empty());
            assert(spans(c) =~= spans(b));
        } else {
            assert(spans(b)[n - 1] == spans_from(b, 1)[n - 2]);
            lemma_spans_cut(b, 1, n - 2);
            assert(spans_from(b, 1).take(n - 1) =~= spans_from(b, 1));
            assert(spans(c) =~= spans(b));
        }
    } else {
        lemma_spans_cut(b, 0, n - 1);
        assert(spans_from(b, 0).take(n) =~= spans_from(b, 0));
        assert(spans(c) =~= spans(b));
    }
}

proof fn lemma_start_of_span(b: Seq<u8>, i: int, k: int)
    requires
        0 <= i,
        0 <= k < spans_from(b, i).len(),
    ensures
        spans_from(b, spans_from(b, i)[k].0) == spans_from(b, i).skip(k),
        i <= spans_from(b, i)[k].0 < spans_from(b, i)[k].1 <= b.len(),
        b[spans_from(b, i)[k].0] != SLASH,
        is_component(b, spans_from(b, i)[k].0, segment_end(b, spans_from(b, i)[k].0)),
    decreases b.len() + 1 - i,
{
    lemma_spans_from_bounds(b, i);
    lemma_segment_end(b, i);
    let end = segment_end(b, i);
    let all = spans_from(b, i);
    let rest = spans_from(b, end + 1);
    if is_component(b, i, end) {
        assert(all =~= seq![(i, end)] + rest);
        if k == 0 {
            assert(all.skip(0) =~= all);
        } else {
            lemma_start_of_span(b, end + 1, k - 1);
            assert(all.skip(k) =~= rest.skip(k - 1));
        }
    } else {
        lemma_start_of_span(b, end + 1, k);
    }
}

/// From the start of a component on, a path has the components from that one on.
proof fn lemma_span_starts_part(b: Seq<u8>, k: int)
    requires
        0 < k < spans(b).len(),
    ensures
        parts(b, spans(b)[k].0) == components(b).skip(k),
        0 < spans(b)[k].0 < b.len(),
        b[spans(b)[k].0] != SLASH,
        is_component(b, spans(b)[k].0, segment_end(b, spans(b)[k].0)),
{
    lemma_spans_bounds(b);
    if is_rooted(b) {
        assert(spans(b)[k] == spans_from(b, 1)[k - 1]);
        lemma_start_of_span(b, 1, k - 1);
        assert(spans(b).skip(k) =~= spans_from(b, 1).skip(k - 1));
    } else {
        lemma_start_of_span(b, 0, k);
        lemma_spans_from_apart(b, 0, k - 1);
    }
    assert(parts(b, spans(b)[k].0) =~= components(b).skip(k));
}

/// The end of a path that starts at a component has the components of the path from there on.
proof fn lemma_parts_head(d: Seq<u8>, c: Seq<u8>, from: int)
    requires
        0 < from < c.len(),
        d == c.skip(from),
        c[from] != SLASH,
        is_component(c, from, segment_end(c, from)),
    ensures
        components(d) == parts(c, from),
{
    lemma_components(d);
    assert(d[0] == c[from]);
    lemma_segment_end(c, from);
    let end = segment_end(c, from);
    let near = end - from;
    assert forall|j: int| 0 <= j < near implies d[j] != SLASH by {
        assert(d[j] == c[from + j]);
    }
    assert(near == d.len() || d[near] == SLASH) by {
        if end < c.len() {
            assert(d[near] == c[end]);
        }
    }
    lemma_same_segment(d, d, 0, near);
    lemma_parts_step(d, 0);
    lemma_parts_step(c, from);
    assert(d.subrange(0, near) =~= c.subrange(from, end));
    lemma_parts_moved(d, c, near + 1, from);
    assert(parts(d, 0) =~= parts(c, from));
}

/// The root has one component, nothing above it, and no name.
pub proof fn root_has_no_name()
    ensures
        components(seq![SLASH]) == seq![root_component()],
        parent_of(seq![SLASH]) is None,
        file_name_of(seq![SLASH]) is None,
{
    let r = seq![SLASH];
    lemma_components(r);
    assert(parts(r, 1) =~= Seq::<Seq<u8>>::empty());
    assert(components(r) =~= seq![root_component()]);
}

/// A component is the root, which is the first, or a name: not empty, without a slash, and a `.` only
/// where it is the first.
pub proof fn component_is_a_name(b: Seq<u8>, k: int)
    requires
        0 <= k < components(b).len(),
    ensures
        components(b)[k].len() > 0,
        components(b)[k] == root_component() ==> k == 0,
        components(b)[k] != root_component() ==> !components(b)[k].contains(SLASH),
        k > 0 ==> components(b)[k] != here_component(),
{
    lemma_components(b);
    if is_rooted(b) {
        if k > 0 {
            assert(components(b)[k] == parts(b, 1)[k - 1]);
            lemma_part_is_a_name(b, 1, k - 1);
        } else {
            assert(root_component()[0] == SLASH);
        }
    } else {
        lemma_part_is_a_name(b, 0, k);
    }
}

proof fn lemma_part_is_a_name(b: Seq<u8>, i: int, k: int)
    requires
        0 <= i,
        0 <= k < parts(b, i).len(),
    ensures
        parts(b, i)[k].len() > 0,
        !parts(b, i)[k].contains(SLASH),
        parts(b, i)[k] != root_component(),
        i > 0 || k > 0 ==> parts(b, i)[k] != here_component(),
    decreases b.len() + 1 - i,
{
    lemma_parts_step(b, i);
    lemma_segment_end(b, i);
    let end = segment_end(b, i);
    if is_component(b, i, end) {
        if k == 0 {
            let p = b.subrange(i, end);
            assert(parts(b, i)[0] == p);
            assert(!p.contains(SLASH)) by {
                if p.contains(SLASH) {
                    let j = p.index_of(SLASH);
                    assert(b[i + j] == SLASH);
                }
            }
            if p == root_component() {
                assert(p[0] == SLASH);
                assert(p.contains(p[0]));
            }
            if i > 0 && p == here_component() {
                assert(p[0] == b[i]);
                assert(p.len() == 1);
            }
        } else {
            assert(parts(b, i)[k] == parts(b, end + 1)[k - 1]);
            lemma_part_is_a_name(b, end + 1, k - 1);
        }
    } else {
        lemma_part_is_a_name(b, end + 1, k);
    }
}

/// A path that is put behind a directory has its components behind those of the directory.
pub proof fn joined_path_follows_the_base(base: Seq<u8>, y: Seq<u8>)
    requires
        y.len() == 0 || y[0] != SLASH,
        components(y).len() > 0 ==> components(y)[0] != here_component(),
    ensures
        components(joined(base, y)) == components(base) + components(y),
{
    let b = joined(base, y);
    let none = Seq::<u8>::empty();
    assert(components(none) =~= Seq::<Seq<u8>>::empty());
    if base.len() == 0 {
        assert(b =~= y);
        assert(base =~= none);
        assert(components(base) + components(y) =~= components(y));
    } else if y.len() == 0 {
        assert(y =~= none);
        assert(components(base) + components(y) =~= components(base));
        if base.last() != SLASH {
            spelling_does_not_matter(base, none);
            assert(b =~= base + seq![SLASH]);
        } else {
            assert(b =~= base);
        }
    } else {
        let x = if base.last() == SLASH {
            base.drop_last()
        } else {
            base
        };
        assert(b =~= x + seq![SLASH] + y);
        let k = x.len() as int + 1;
        assert(b.skip(k) =~= y);
        assert(b[k] == y[0]);
        lemma_components(y);
        lemma_segment_end(b, k);
        lemma_segment_end(y, 0);
        lemma_parts_step(y, 0);
        let end = segment_end(b, k);
        if end == k + 1 && b[k] == DOT {
            if segment_end(y, 0) > 1 {
                assert(y[1] == b[k + 1]);
            }
            if segment_end(y, 0) < 1 {
                assert(y[0] == SLASH);
            }
            assert(y.subrange(0, 1) =~= here_component());
            assert(components(y)[0] == y.subrange(0, 1));
        }
        assert(is_component(b, k, end));
        lemma_parts_head(y, b, k);
        lemma_components(b);
        lemma_components(base);
        assert(b[0] == base[0]);
        let first: int = if is_rooted(base) {
            1
        } else {
            0
        };
        if first <= x.len() {
            lemma_parts_at_slash(x, y, first);
            if base.last() == SLASH {
                lemma_parts_at_slash(x, none, first);
                assert(base =~= x + seq![SLASH] + none);
                assert(parts(base, k) =~= Seq::<Seq<u8>>::empty());
                assert(parts(base, first) =~= parts(x, first));
            }
        } else {
            assert(base =~= seq![SLASH]);
            assert(parts(base, 1) =~= Seq::<Seq<u8>>::empty());
        }
        assert(components(b) =~= components(base) + components(y));
    }
}

/// What is left of a path behind the start of it does not start at the root.
pub proof fn stripped_path_is_relative(b: Seq<u8>, base: Seq<u8>)
    requires
        path_starts_with(b, base),
        components(base).len() > 0,
    ensures
        ({
            let y = stripped(b, base)->0;
            &&& y.len() == 0 || y[0] != SLASH
            &&& components(y).len() > 0 ==> components(y)[0] != here_component()
        }),
{
    let s = spans(b);
    let k = spans(base).len() as int;
    stripped_path_has_the_remaining_components(b, base);
    let y = stripped(b, base)->0;
    lemma_spans_bounds(b);
    if s.len() > k {
        lemma_span_starts_part(b, k);
        lemma_spans_ordered(b, k, s.len() - 1);
        assert(y[0] == b[s[k].0]);
        component_is_a_name(b, k);
        assert(components(y)[0] == components(b)[k]);
    }
}

/// A path is in a list where it is in one of its parts, and in a list of one path where that is the
/// same path.
pub proof fn paths_are_found_in_either_part(a: Seq<Seq<u8>>, b: Seq<Seq<u8>>, x: Seq<u8>, p: Seq<u8>)
    ensures
        has_path(a + b, p) <==> has_path(a, p) || has_path(b, p),
        has_path(seq![x], p) <==> same_path(x, p),
        !has_path(Seq::<Seq<u8>>::empty(), p),
{
    let all = a + b;
    if has_path(a, p) {
        let i = choose|i: int| 0 <= i < a.len() && same_path(#[trigger] a[i], p);
        assert(all[i] == a[i]);
    }
    if has_path(b, p) {
        let i = choose|i: int| 0 <= i < b.len() && same_path(#[trigger] b[i], p);
        assert(all[a.len() + i] == b[i]);
    }
    if has_path(all, p) {
        let i = choose|i: int| 0 <= i < all.len() && same_path(#[trigger] all[i], p);
        assert(all[i] == if i < a.len() { a[i] } else { b[i - a.len()] });
    }
    assert(seq![x][0] == x);
}

} // verus!
