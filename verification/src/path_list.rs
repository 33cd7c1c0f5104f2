//! Lists of paths that are compared as paths: membership, lists without repetition, and the order
//! of paths.

use vstd::prelude::*;

use crate::path;
use crate::path::{find_spans, FsPath, DOT, SLASH};
use crate::sort;
use crate::sort::{sort_by_items, SortItem};

verus! {

/// A list with a path at the end, unless it is there already in some spelling.
pub open spec fn pushed_unique(list: Seq<Seq<u8>>, p: Seq<u8>) -> Seq<Seq<u8>> {
    if path::has_path(list, p) {
        list
    } else {
        list.push(p)
    }
}

/// A list with paths at the end, each unless it is there already.
pub open spec fn all_pushed(list: Seq<Seq<u8>>, paths: Seq<Seq<u8>>) -> Seq<Seq<u8>>
    decreases paths.len(),
{
    if paths.len() == 0 {
        list
    } else {
        pushed_unique(all_pushed(list, paths.drop_last()), paths.last())
    }
}

/// The paths of a list, each once.
pub open spec fn each_once(paths: Seq<Seq<u8>>) -> Seq<Seq<u8>> {
    all_pushed(Seq::empty(), paths)
}

/// Pushing keeps a list free of repetition, keeps what is in it, and puts the path in.
pub proof fn pushed_path_is_in_once(list: Seq<Seq<u8>>, p: Seq<u8>)
    requires
        path::distinct_paths(list),
    ensures
        path::distinct_paths(pushed_unique(list, p)),
        path::has_path(pushed_unique(list, p), p),
        forall|q: Seq<u8>|
            #[trigger] path::has_path(list, q) ==> path::has_path(pushed_unique(list, p), q),
{
    let t = pushed_unique(list, p);
    if !path::has_path(list, p) {
        assert(path::same_path(t[list.len() as int], p));
        assert forall|i: int, j: int| 0 <= i < j < t.len() implies !path::same_path(
            #[trigger] t[i],
            #[trigger] t[j],
        ) by {
            assert(t[i] == list[i]);
        }
        assert forall|q: Seq<u8>| #[trigger] path::has_path(list, q) implies path::has_path(
            t,
            q,
        ) by {
            let i = choose|i: int| 0 <= i < list.len() && path::same_path(list[i], q);
            assert(t[i] == list[i]);
        }
    }
}

/// Pushing many paths keeps a list free of repetition and puts every one of them in.
pub proof fn all_pushed_paths_are_in_once(list: Seq<Seq<u8>>, paths: Seq<Seq<u8>>)
    requires
        path::distinct_paths(list),
    ensures
        path::distinct_paths(all_pushed(list, paths)),
        forall|q: Seq<u8>|
            #[trigger] path::has_path(list, q) ==> path::has_path(all_pushed(list, paths), q),
        forall|i: int|
            0 <= i < paths.len() ==> path::has_path(all_pushed(list, paths), #[trigger] paths[i]),
        all_pushed(list, paths).len() >= list.len(),
        paths.len() > 0 ==> all_pushed(list, paths).len() > 0,
    decreases paths.len(),
{
    if paths.len() > 0 {
        let rest = paths.drop_last();
        all_pushed_paths_are_in_once(list, rest);
        let mid = all_pushed(list, rest);
        pushed_path_is_in_once(mid, paths.last());
        assert forall|i: int| 0 <= i < paths.len() implies path::has_path(
            all_pushed(list, paths),
            #[trigger] paths[i],
        ) by {
            if i < rest.len() {
                assert(paths[i] == rest[i]);
                assert(path::has_path(mid, rest[i]));
            }
        }
        if all_pushed(list, paths).len() == 0 {
            assert(path::has_path(all_pushed(list, paths), paths.last()));
            assert(false);
        }
    }
}

/// The first place of a path in a list at or after `i`, and the length where it is not there.
pub open spec fn place_of(list: Seq<Seq<u8>>, p: Seq<u8>, i: int) -> int
    decreases list.len() - i,
{
    if i < 0 || i >= list.len() {
        list.len() as int
    } else if path::same_path(list[i], p) {
        i
    } else {
        place_of(list, p, i + 1)
    }
}

/// A first place is where the path is, and nothing before it is the path.
pub proof fn lemma_place_of(list: Seq<Seq<u8>>, p: Seq<u8>, i: int)
    requires
        0 <= i <= list.len(),
    ensures
        i <= place_of(list, p, i) <= list.len(),
        place_of(list, p, i) < list.len() ==> path::same_path(list[place_of(list, p, i)], p),
        forall|k: int| i <= k < place_of(list, p, i) ==> !path::same_path(#[trigger] list[k], p),
        i == 0 ==> path::has_path(list, p) == (place_of(list, p, 0) < list.len()),
    decreases list.len() - i,
{
    if i < list.len() && !path::same_path(list[i], p) {
        lemma_place_of(list, p, i + 1);
    }
}

/// The first place of a path in a list, and the length where it is not there.
pub fn position(list: &Vec<FsPath>, p: &FsPath) -> (r: usize)
    ensures
        r == place_of(path::path_views(list@), p@, 0),
        r <= list@.len(),
{
    let ghost views = path::path_views(list@);
    let mut i: usize = 0;
    while i < list.len()
        invariant
            i <= list@.len(),
            views == path::path_views(list@),
            place_of(views, p@, 0) == place_of(views, p@, i as int),
        decreases list@.len() - i,
    {
        if list[i].same(p) {
            return i;
        }
        i += 1;
    }
    i
}

/// Whether a list holds a path, in any spelling.
pub fn contains_path(list: &Vec<FsPath>, p: &FsPath) -> (r: bool)
    ensures
        r == path::has_path(path::path_views(list@), p@),
{
    let ghost views = path::path_views(list@);
    let mut i: usize = 0;
    while i < list.len()
        invariant
            i <= list@.len(),
            views == path::path_views(list@),
            forall|k: int| 0 <= k < i ==> !path::same_path(#[trigger] views[k], p@),
        decreases list@.len() - i,
    {
        assert(views[i as int] == list@[i as int]@);
        if list[i].same(p) {
            return true;
        }
        i += 1;
    }
    false
}

/// Puts a path at the end of a list, unless it is there already.
pub fn push_unique(list: &mut Vec<FsPath>, p: FsPath)
    ensures
        path::path_views(final(list)@) == pushed_unique(path::path_views(old(list)@), p@),
{
    if !contains_path(list, &p) {
        let ghost before = path::path_views(list@);
        let ghost v = p@;
        list.push(p);
        assert(path::path_views(list@) =~= before.push(v));
    }
}

/// Puts copies of paths at the end of a list, each unless it is there already.
pub fn push_all_unique(list: &mut Vec<FsPath>, paths: &Vec<FsPath>)
    ensures
        path::path_views(final(list)@) == all_pushed(
            path::path_views(old(list)@),
            path::path_views(paths@),
        ),
{
    let ghost first = path::path_views(list@);
    let ghost all = path::path_views(paths@);
    let mut i: usize = 0;
    assert(all.take(0) =~= Seq::empty());
    while i < paths.len()
        invariant
            i <= paths@.len(),
            all == path::path_views(paths@),
            path::path_views(list@) == all_pushed(first, all.take(i as int)),
        decreases paths@.len() - i,
    {
        proof {
            assert(all.take(i + 1).drop_last() =~= all.take(i as int));
            assert(all.take(i + 1).last() == paths@[i as int]@);
        }
        push_unique(list, paths[i].clone());
        i += 1;
    }
    assert(all.take(i as int) =~= all);
}

/// A copy of a list of paths.
pub fn copy_paths(paths: &Vec<FsPath>) -> (r: Vec<FsPath>)
    ensures
        path::path_views(r@) == path::path_views(paths@),
{
    let mut out: Vec<FsPath> = Vec::new();
    let mut i: usize = 0;
    let ghost all = path::path_views(paths@);
    assert(path::path_views(out@) =~= all.take(0));
    while i < paths.len()
        invariant
            i <= paths@.len(),
            all == path::path_views(paths@),
            path::path_views(out@) == all.take(i as int),
        decreases paths@.len() - i,
    {
        let ghost before = path::path_views(out@);
        let p = paths[i].clone();
        let ghost v = p@;
        out.push(p);
        i += 1;
        assert(path::path_views(out@) =~= before.push(v));
        assert(path::path_views(out@) =~= all.take(i as int));
    }
    assert(all.take(i as int) =~= all);
    out
}

/// The rank of a component: the root, then the directory itself, then the one above, then names.
pub open spec fn component_rank(c: Seq<u8>) -> i128 {
    if c == path::root_component() {
        0
    } else if c == path::here_component() {
        1
    } else if c == path::up_component() {
        2
    } else {
        3
    }
}

/// What a component is sorted by: its rank, its bytes, and an end that is smaller than any byte.
pub open spec fn component_key(c: Seq<u8>) -> Seq<i128> {
    seq![component_rank(c)] + c.map_values(|b: u8| (b + 1) as i128) + seq![0i128]
}

/// What a path is sorted by: its components in order, so that a path comes before what is in it.
pub open spec fn components_key(c: Seq<Seq<u8>>) -> Seq<i128>
    decreases c.len(),
{
    if c.len() == 0 {
        Seq::empty()
    } else {
        components_key(c.drop_last()) + component_key(c.last())
    }
}

/// What paths are sorted by.
pub open spec fn order_items(paths: Seq<Seq<u8>>) -> Seq<sort::ItemView> {
    paths.map_values(|p: Seq<u8>| (false, components_key(path::components(p))))
}

/// Appends the key of a component.
fn push_component_key(out: &mut Vec<i128>, b: &[u8], start: usize, end: usize)
    requires
        start <= end <= b@.len(),
    ensures
        final(out)@ == old(out)@ + component_key(b@.subrange(start as int, end as int)),
{
    let ghost before = out@;
    let ghost c = b@.subrange(start as int, end as int);
    let n: usize = end - start;
    let rank: i128 = if n == 1 && b[start] == SLASH {
        assert(c =~= path::root_component());
        0
    } else if n == 1 && b[start] == DOT {
        assert(c =~= path::here_component());
        assert(c[0] != SLASH);
        1
    } else if n == 2 && b[start] == DOT && b[start + 1] == DOT {
        assert(c =~= path::up_component());
        assert(c.len() == 2);
        2
    } else {
        assert(c == path::root_component() ==> c.len() == 1 && c[0] == SLASH);
        assert(c == path::here_component() ==> c.len() == 1 && c[0] == DOT);
        assert(c == path::up_component() ==> c.len() == 2 && c[0] == DOT && c[1] == DOT);
        3
    };
    assert(rank == component_rank(c));
    out.push(rank);
    let ghost nums = c.map_values(|x: u8| (x + 1) as i128);
    let mut i: usize = start;
    assert(out@ =~= before + seq![rank] + nums.take(0));
    while i < end
        invariant
            start <= i <= end <= b@.len(),
            c == b@.subrange(start as int, end as int),
            nums == c.map_values(|x: u8| (x + 1) as i128),
            out@ == before + seq![rank] + nums.take(i - start),
        decreases end - i,
    {
        out.push(b[i] as i128 + 1);
        i += 1;
        assert(nums[i - 1 - start] == b@[i - 1] + 1);
        assert(out@ =~= before + seq![rank] + nums.take(i - start));
    }
    out.push(0);
    assert(nums.take(i - start) =~= nums);
    assert(out@ =~= before + component_key(c));
}

/// What a path is sorted by.
fn path_key(p: &FsPath) -> (r: Vec<i128>)
    ensures
        r@ == components_key(path::components(p@)),
{
    let spans = find_spans(p.as_bytes());
    let ghost cs = path::components(p@);
    let mut out: Vec<i128> = Vec::new();
    let mut i: usize = 0;
    proof {
        path::lemma_spans_bounds(p@);
        assert(path::span_views(spans@).len() == spans@.len());
        assert(cs.take(0) =~= Seq::empty());
    }
    while i < spans.len()
        invariant
            i <= spans@.len(),
            cs == path::components(p@),
            cs.len() == spans@.len(),
            path::span_views(spans@) == path::spans(p@),
            forall|k: int|
                0 <= k < path::spans(p@).len() ==> 0 <= (#[trigger] path::spans(p@)[k]).0
                    < path::spans(p@)[k].1 <= p@.len(),
            out@ == components_key(cs.take(i as int)),
        decreases spans@.len() - i,
    {
        let s = spans[i];
        proof {
            assert(path::span_views(spans@)[i as int] == (s.start as int, s.end as int));
            assert(path::spans(p@)[i as int] == (s.start as int, s.end as int));
            assert(cs.take(i + 1).drop_last() =~= cs.take(i as int));
            assert(cs.take(i + 1).last() == p@.subrange(s.start as int, s.end as int));
        }
        push_component_key(&mut out, p.as_bytes(), s.start, s.end);
        i += 1;
    }
    assert(cs.take(i as int) =~= cs);
    out
}

/// Sorts paths by their components.
pub fn sort_paths(paths: &mut Vec<FsPath>)
    ensures
        exists|order: Seq<usize>|
            sort::is_stable_order(order, order_items(path::path_views(old(paths)@)), false)
                && path::path_views(final(paths)@) == #[trigger] sort::rearranged(
                path::path_views(old(paths)@),
                order,
            ),
{
    let ghost first = paths@;
    let ghost all = order_items(path::path_views(paths@));
    let mut items: Vec<SortItem> = Vec::new();
    let mut i: usize = 0;
    assert(sort::item_views(items@) =~= all.take(0));
    while i < paths.len()
        invariant
            i <= paths@.len(),
            items@.len() == i,
            all == order_items(path::path_views(paths@)),
            sort::item_views(items@) == all.take(i as int),
        decreases paths@.len() - i,
    {
        let ghost before = sort::item_views(items@);
        let item = SortItem { front: false, key: path_key(&paths[i]) };
        let ghost v = item@;
        items.push(item);
        i += 1;
        assert(sort::item_views(items@) =~= before.push(v));
        assert(sort::item_views(items@) =~= all.take(i as int));
    }
    assert(sort::item_views(items@) =~= all);
    sort_by_items(paths, &items, false);
    proof {
        let order = choose|order: Seq<usize>|
            sort::is_stable_order(order, sort::item_views(items@), false) && paths@
                == #[trigger] sort::rearranged(first, order);
        assert(path::path_views(paths@) =~= sort::rearranged(path::path_views(first), order));
    }
}

/// A list with more paths at its end still starts with what it held, in its order, and holds no
/// path besides the old and the new ones.
pub proof fn pushed_paths_stand_behind(list: Seq<Seq<u8>>, paths: Seq<Seq<u8>>)
    ensures
        list.len() <= all_pushed(list, paths).len() <= list.len() + paths.len(),
        forall|i: int|
            0 <= i < list.len() ==> #[trigger] all_pushed(list, paths)[i] == list[i],
        forall|i: int|
            list.len() <= i < all_pushed(list, paths).len() ==> paths.contains(
                #[trigger] all_pushed(list, paths)[i],
            ),
    decreases paths.len(),
{
    if paths.len() > 0 {
        let rest = paths.drop_last();
        pushed_paths_stand_behind(list, rest);
        let mid = all_pushed(list, rest);
        let all = all_pushed(list, paths);
        assert forall|i: int| list.len() <= i < all.len() implies paths.contains(
            #[trigger] all[i],
        ) by {
            if i < mid.len() {
                assert(all[i] == mid[i]);
                let j = rest.index_of(mid[i]);
                assert(rest[j] == mid[i]);
                assert(paths[j] == all[i]);
            } else {
                assert(paths[paths.len() - 1] == all[i]);
            }
        }
        assert forall|i: int| 0 <= i < list.len() implies #[trigger] all[i] == list[i] by {
            assert(all[i] == mid[i]);
        }
    }
}

/// A path that a list holds in some spelling is not put in again, and any other one goes to the end.
pub proof fn held_path_is_not_pushed(list: Seq<Seq<u8>>, p: Seq<u8>, i: int)
    requires
        0 <= i < list.len(),
    ensures
        path::same_path(list[i], p) ==> pushed_unique(list, p) == list,
        (forall|k: int| 0 <= k < list.len() ==> !path::same_path(#[trigger] list[k], p))
            ==> pushed_unique(list, p) == list.push(p),
{
}

proof fn lemma_key_goes_on(p: Seq<Seq<u8>>, rest: Seq<Seq<u8>>)
    ensures
        components_key(p + rest) == components_key(p) + components_key(rest),
    decreases rest.len(),
{
    if rest.len() == 0 {
        assert(p + rest == p);
    } else {
        lemma_key_goes_on(p, rest.drop_last());
        assert((p + rest).drop_last() == p + rest.drop_last());
        assert((p + rest).last() == rest.last());
    }
}

proof fn lemma_key_with(p: Seq<Seq<u8>>, c: Seq<u8>, rest: Seq<Seq<u8>>)
    ensures
        components_key(p + seq![c] + rest) == components_key(p) + (component_key(c)
            + components_key(rest)),
{
    lemma_key_goes_on(p + seq![c], rest);
    lemma_key_goes_on(p, seq![c]);
    assert(seq![c].drop_last() == Seq::<Seq<u8>>::empty());
    assert(components_key(seq![c].drop_last()) == Seq::<i128>::empty());
    assert(components_key(seq![c]) == component_key(seq![c].last()));
}

/// A directory comes before everything in it.
pub proof fn directories_come_before_what_is_in_them(p: Seq<Seq<u8>>, rest: Seq<Seq<u8>>)
    requires
        rest.len() > 0,
    ensures
        sort::key_before(components_key(p), components_key(p + rest)),
        !sort::key_before(components_key(p + rest), components_key(p)),
{
    lemma_key_goes_on(p, rest);
    let a = components_key(p);
    let b = components_key(p + rest);
    assert(components_key(rest) == components_key(rest.drop_last()) + component_key(rest.last()));
    sort::first_difference_decides(a, b, a.len() as int);
    sort::first_difference_decides(b, a, a.len() as int);
}

/// Of two paths that part at a name, the first byte in which the names differ decides, and a name
/// that ends there comes first. What stands behind the names does not matter.
pub proof fn paths_are_ordered_by_names(
    p: Seq<Seq<u8>>,
    a: Seq<u8>,
    b: Seq<u8>,
    behind_a: Seq<Seq<u8>>,
    behind_b: Seq<Seq<u8>>,
    at: int,
)
    requires
        path::is_name(a),
        path::is_name(b),
        0 <= at <= a.len(),
        at <= b.len(),
        at < a.len() || at < b.len(),
        forall|i: int| 0 <= i < at ==> a[i] == b[i],
        at < a.len() && at < b.len() ==> a[at] != b[at],
    ensures
        sort::key_before(
            components_key(p + seq![a] + behind_a),
            components_key(p + seq![b] + behind_b),
        ) <==> at == a.len() || (at < b.len() && a[at] < b[at]),
{
    lemma_key_with(p, a, behind_a);
    lemma_key_with(p, b, behind_b);
    let x = components_key(p + seq![a] + behind_a);
    let y = components_key(p + seq![b] + behind_b);
    let n = components_key(p).len() as int;
    assert(x[n] == 3 && y[n] == 3);
    assert forall|i: int| 0 <= i < n + 1 + at implies x[i] == y[i] by {
        if i > n {
            assert(x[i] == a[i - n - 1] + 1);
            assert(y[i] == b[i - n - 1] + 1);
        }
    }
    assert(x[n + 1 + at] == if at < a.len() { a[at] + 1 } else { 0 });
    assert(y[n + 1 + at] == if at < b.len() { b[at] + 1 } else { 0 });
    sort::first_difference_decides(x, y, n + 1 + at);
}

/// Where two paths part, the root comes first, then the directory itself, then the one above, then
/// any name.
pub proof fn roots_and_dots_come_before_names(
    p: Seq<Seq<u8>>,
    name: Seq<u8>,
    behind_a: Seq<Seq<u8>>,
    behind_b: Seq<Seq<u8>>,
)
    requires
        path::is_name(name),
    ensures
        sort::key_before(
            components_key(p + seq![seq![47u8]] + behind_a),
            components_key(p + seq![seq![46u8]] + behind_b),
        ),
        sort::key_before(
            components_key(p + seq![seq![46u8]] + behind_a),
            components_key(p + seq![seq![46u8, 46u8]] + behind_b),
        ),
        sort::key_before(
            components_key(p + seq![seq![46u8, 46u8]] + behind_a),
            components_key(p + seq![name] + behind_b),
        ),
{
    let root = seq![47u8];
    let here = seq![46u8];
    let up = seq![46u8, 46u8];
    assert(root[0] == 47 && here[0] == 46);
    assert(root != here && up.len() != root.len() && up.len() != here.len());
    assert(root =~= path::root_component() && here =~= path::here_component() && up
        =~= path::up_component());
    lemma_key_with(p, root, behind_a);
    lemma_key_with(p, here, behind_a);
    lemma_key_with(p, here, behind_b);
    lemma_key_with(p, up, behind_a);
    lemma_key_with(p, up, behind_b);
    lemma_key_with(p, name, behind_b);
    let n = components_key(p).len() as int;
    sort::first_difference_decides(
        components_key(p + seq![root] + behind_a),
        components_key(p + seq![here] + behind_b),
        n,
    );
    sort::first_difference_decides(
        components_key(p + seq![here] + behind_a),
        components_key(p + seq![up] + behind_b),
        n,
    );
    sort::first_difference_decides(
        components_key(p + seq![up] + behind_a),
        components_key(p + seq![name] + behind_b),
        n,
    );
}

/// Paths are ordered by their components and by nothing else.
pub proof fn paths_are_ordered_by_components(paths: Seq<Seq<u8>>, i: int)
    requires
        0 <= i < paths.len(),
    ensures
        order_items(paths).len() == paths.len(),
        !order_items(paths)[i].0,
        order_items(paths)[i].1 == components_key(path::components(paths[i])),
{
}

} // verus!
