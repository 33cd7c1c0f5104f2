//! Stable sorting by keys.

use vstd::prelude::*;

verus! {

/// What an item is sorted by: items at the front come first whatever the order, and among the
/// others and among them the key decides.
#[derive(Debug)]
pub struct SortItem {
    pub front: bool,
    pub key: Vec<i128>,
}

/// Whether one key comes before another: at the first difference the smaller number, and the
/// shorter one where it is the beginning of the other.
pub open spec fn key_before(a: Seq<i128>, b: Seq<i128>) -> bool
    decreases a.len(),
{
    if b.len() == 0 {
        false
    } else if a.len() == 0 {
        true
    } else if a[0] != b[0] {
        a[0] < b[0]
    } else {
        key_before(a.skip(1), b.skip(1))
    }
}

/// What an item is sorted by.
pub type ItemView = (bool, Seq<i128>);

impl View for SortItem {
    type V = ItemView;

    open spec fn view(&self) -> ItemView {
        (self.front, self.key@)
    }
}

/// What items are sorted by.
pub open spec fn item_views(items: Seq<SortItem>) -> Seq<ItemView> {
    items.map_values(|i: SortItem| i@)
}

/// Whether one item comes before another.
pub open spec fn item_before(a: ItemView, b: ItemView, descending: bool) -> bool {
    if a.0 != b.0 {
        a.0
    } else if descending {
        key_before(b.1, a.1)
    } else {
        key_before(a.1, b.1)
    }
}

/// Whether the item at one place comes before the item at another; of two alike the one that
/// stood first.
pub open spec fn place_before(items: Seq<ItemView>, descending: bool, i: int, j: int) -> bool {
    item_before(items[i], items[j], descending) || (!item_before(items[j], items[i], descending)
        && i < j)
}

/// Whether a list of places holds a place.
pub open spec fn holds_place(order: Seq<usize>, p: int) -> bool {
    exists|k: int| 0 <= k < order.len() && order[k] == p
}

/// Whether a list of places holds each place of a range once, in the order of the items.
pub open spec fn orders_range(
    order: Seq<usize>,
    items: Seq<ItemView>,
    descending: bool,
    lo: int,
    hi: int,
) -> bool {
    &&& order.len() == hi - lo
    &&& forall|k: int| 0 <= k < order.len() ==> lo <= (#[trigger] order[k]) < hi
    &&& forall|p: int| lo <= p < hi ==> #[trigger] holds_place(order, p)
    &&& forall|k: int, l: int|
        0 <= k < l < order.len() ==> place_before(
            items,
            descending,
            #[trigger] order[k] as int,
            #[trigger] order[l] as int,
        )
}

/// Whether a list of places is the stable order of the items.
pub open spec fn is_stable_order(order: Seq<usize>, items: Seq<ItemView>, descending: bool) -> bool {
    orders_range(order, items, descending, 0, items.len() as int)
}

proof fn lemma_key_irreflexive(a: Seq<i128>)
    ensures
        !key_before(a, a),
    decreases a.len(),
{
    if a.len() > 0 {
        lemma_key_irreflexive(a.skip(1));
    }
}

proof fn lemma_key_asymmetric(a: Seq<i128>, b: Seq<i128>)
    requires
        key_before(a, b),
    ensures
        !key_before(b, a),
    decreases a.len(),
{
    if a.len() > 0 && b.len() > 0 && a[0] == b[0] {
        lemma_key_asymmetric(a.skip(1), b.skip(1));
    }
}

proof fn lemma_key_transitive(a: Seq<i128>, b: Seq<i128>, c: Seq<i128>)
    requires
        key_before(a, b),
        key_before(b, c),
    ensures
        key_before(a, c),
    decreases a.len(),
{
    if a.len() > 0 && a[0] == b[0] && b[0] == c[0] {
        lemma_key_transitive(a.skip(1), b.skip(1), c.skip(1));
    }
}

proof fn lemma_key_total(a: Seq<i128>, b: Seq<i128>)
    ensures
        key_before(a, b) || key_before(b, a) || a == b,
    decreases a.len(),
{
    if a.len() > 0 && b.len() > 0 && a[0] == b[0] {
        lemma_key_total(a.skip(1), b.skip(1));
        if a.skip(1) == b.skip(1) {
            assert(a =~= seq![a[0]] + a.skip(1));
            assert(b =~= seq![b[0]] + b.skip(1));
        }
    } else if a.len() == 0 && b.len() == 0 {
        assert(a =~= b);
    }
}

proof fn lemma_place_transitive(items: Seq<ItemView>, descending: bool, i: int, j: int, k: int)
    requires
        place_before(items, descending, i, j),
        place_before(items, descending, j, k),
    ensures
        place_before(items, descending, i, k),
{
    let (a, b, c) = (items[i].1, items[j].1, items[k].1);
    lemma_key_total(a, b);
    lemma_key_total(b, c);
    lemma_key_irreflexive(a);
    lemma_key_irreflexive(b);
    lemma_key_irreflexive(c);
    if key_before(a, b) {
        lemma_key_asymmetric(a, b);
        if key_before(b, c) {
            lemma_key_transitive(a, b, c);
            lemma_key_asymmetric(a, c);
        }
    }
    if key_before(b, a) {
        lemma_key_asymmetric(b, a);
        if key_before(c, b) {
            lemma_key_transitive(c, b, a);
            lemma_key_asymmetric(c, a);
        }
    }
    if key_before(b, c) {
        lemma_key_asymmetric(b, c);
    }
    if key_before(c, b) {
        lemma_key_asymmetric(c, b);
    }
}

/// Whether one key comes before another.
fn compare_keys(a: &Vec<i128>, b: &Vec<i128>) -> (r: bool)
    ensures
        r == key_before(a@, b@),
{
    let mut i: usize = 0;
    proof {
        assert(a@.skip(0) =~= a@);
        assert(b@.skip(0) =~= b@);
    }
    while i < a.len() && i < b.len() && a[i] == b[i]
        invariant
            i <= a@.len(),
            i <= b@.len(),
            key_before(a@.skip(i as int), b@.skip(i as int)) == key_before(a@, b@),
        decreases a@.len() - i,
    {
        proof {
            assert(a@.skip(i as int).skip(1) =~= a@.skip(i + 1));
            assert(b@.skip(i as int).skip(1) =~= b@.skip(i + 1));
        }
        i += 1;
    }
    if i >= b.len() {
        return false;
    }
    if i >= a.len() {
        return true;
    }
    a[i] < b[i]
}

/// Whether one item comes before another.
fn compare_items(a: &SortItem, b: &SortItem, descending: bool) -> (r: bool)
    ensures
        r == item_before(a@, b@, descending),
{
    if a.front != b.front {
        a.front
    } else if descending {
        compare_keys(&b.key, &a.key)
    } else {
        compare_keys(&a.key, &b.key)
    }
}

proof fn lemma_not_before(items: Seq<ItemView>, descending: bool, i: int, j: int)
    requires
        i < j,
        !item_before(items[j], items[i], descending),
    ensures
        place_before(items, descending, i, j),
{
}

proof fn lemma_before_later(items: Seq<ItemView>, descending: bool, i: int, j: int)
    requires
        item_before(items[i], items[j], descending),
    ensures
        place_before(items, descending, i, j),
{
}

/// Whether a value is among the first `n` of a list.
spec fn among(s: Seq<usize>, n: int, v: usize) -> bool {
    exists|p: int| 0 <= p < n && s[p] == v
}

/// What the first parts of two ordered lists have been merged to.
spec fn merged_state(
    out: Seq<usize>,
    left: Seq<usize>,
    right: Seq<usize>,
    i: int,
    j: int,
    items: Seq<ItemView>,
    descending: bool,
) -> bool {
    &&& 0 <= i <= left.len()
    &&& 0 <= j <= right.len()
    &&& out.len() == i + j
    &&& forall|k: int|
        0 <= k < out.len() ==> among(left, i, #[trigger] out[k]) || among(right, j, out[k])
    &&& forall|p: int| 0 <= p < i ==> holds_place(out, (#[trigger] left[p]) as int)
    &&& forall|p: int| 0 <= p < j ==> holds_place(out, (#[trigger] right[p]) as int)
    &&& forall|k: int, l: int|
        0 <= k < l < out.len() ==> place_before(
            items,
            descending,
            #[trigger] out[k] as int,
            #[trigger] out[l] as int,
        )
    &&& forall|k: int, p: int|
        0 <= k < out.len() && i <= p < left.len() ==> place_before(
            items,
            descending,
            #[trigger] out[k] as int,
            #[trigger] left[p] as int,
        )
    &&& forall|k: int, p: int|
        0 <= k < out.len() && j <= p < right.len() ==> place_before(
            items,
            descending,
            #[trigger] out[k] as int,
            #[trigger] right[p] as int,
        )
}

proof fn lemma_take_left(
    out: Seq<usize>,
    left: Seq<usize>,
    right: Seq<usize>,
    i: int,
    j: int,
    items: Seq<ItemView>,
    descending: bool,
)
    requires
        merged_state(out, left, right, i, j, items, descending),
        i < left.len(),
        forall|k: int, l: int|
            0 <= k < l < left.len() ==> place_before(
                items,
                descending,
                #[trigger] left[k] as int,
                #[trigger] left[l] as int,
            ),
        forall|k: int, l: int|
            0 <= k < l < right.len() ==> place_before(
                items,
                descending,
                #[trigger] right[k] as int,
                #[trigger] right[l] as int,
            ),
        j < right.len() ==> place_before(items, descending, left[i] as int, right[j] as int),
    ensures
        merged_state(out.push(left[i]), left, right, i + 1, j, items, descending),
{
    let t = out.push(left[i]);
    assert forall|k: int| 0 <= k < t.len() implies among(left, i + 1, #[trigger] t[k]) || among(
        right,
        j,
        t[k],
    ) by {
        if k < out.len() {
            assert(t[k] == out[k]);
            if among(left, i, out[k]) {
                let p = choose|p: int| 0 <= p < i && left[p] == out[k];
                assert(left[p] == t[k]);
            }
        } else {
            assert(left[i] == t[k]);
        }
    }
    assert forall|p: int| 0 <= p < i + 1 implies holds_place(t, (#[trigger] left[p]) as int) by {
        if p < i {
            assert(holds_place(out, left[p] as int));
            let k = choose|k: int| 0 <= k < out.len() && out[k] == left[p];
            assert(t[k] == left[p]);
        } else {
            assert(t[out.len() as int] == left[p]);
        }
    }
    assert forall|p: int| 0 <= p < j implies holds_place(t, (#[trigger] right[p]) as int) by {
        assert(holds_place(out, right[p] as int));
        let k = choose|k: int| 0 <= k < out.len() && out[k] == right[p];
        assert(t[k] == right[p]);
    }
    assert forall|k: int, p: int| 0 <= k < t.len() && j <= p < right.len() implies place_before(
        items,
        descending,
        #[trigger] t[k] as int,
        #[trigger] right[p] as int,
    ) by {
        if k == out.len() {
            if p > j {
                lemma_place_transitive(
                    items,
                    descending,
                    left[i] as int,
                    right[j] as int,
                    right[p] as int,
                );
            }
        }
    }
}

proof fn lemma_merged_swap(
    out: Seq<usize>,
    left: Seq<usize>,
    right: Seq<usize>,
    i: int,
    j: int,
    items: Seq<ItemView>,
    descending: bool,
)
    requires
        merged_state(out, left, right, i, j, items, descending),
    ensures
        merged_state(out, right, left, j, i, items, descending),
{
}

/// Merges two ordered lists of places, where every place of the first stands before every place
/// of the second.
fn merge(
    left: &Vec<usize>,
    right: &Vec<usize>,
    items: &Vec<SortItem>,
    descending: bool,
    Ghost(lo): Ghost<int>,
    Ghost(mid): Ghost<int>,
    Ghost(hi): Ghost<int>,
) -> (r: Vec<usize>)
    requires
        0 <= lo <= mid <= hi <= items@.len(),
        orders_range(left@, item_views(items@), descending, lo, mid),
        orders_range(right@, item_views(items@), descending, mid, hi),
    ensures
        orders_range(r@, item_views(items@), descending, lo, hi),
{
    let ghost views = item_views(items@);
    let mut out: Vec<usize> = Vec::new();
    let mut i: usize = 0;
    let mut j: usize = 0;
    assert(merged_state(out@, left@, right@, 0, 0, views, descending));
    while i < left.len() || j < right.len()
        invariant
            views == item_views(items@),
            0 <= lo <= mid <= hi <= items@.len(),
            orders_range(left@, views, descending, lo, mid),
            orders_range(right@, views, descending, mid, hi),
            i <= left@.len(),
            j <= right@.len(),
            merged_state(out@, left@, right@, i as int, j as int, views, descending),
        decreases left@.len() - i + right@.len() - j,
    {
        let take_left = if i >= left.len() {
            false
        } else if j >= right.len() {
            true
        } else {
            let right_first = compare_items(&items[right[j]], &items[left[i]], descending);
            proof {
                let a = left@[i as int] as int;
                let b = right@[j as int] as int;
                assert(views[a] == items@[a]@ && views[b] == items@[b]@);
                if right_first {
                    lemma_before_later(views, descending, b, a);
                } else {
                    lemma_not_before(views, descending, a, b);
                }
            }
            !right_first
        };
        if take_left {
            proof {
                lemma_take_left(
                    out@,
                    left@,
                    right@,
                    i as int,
                    j as int,
                    views,
                    descending,
                );
            }
            out.push(left[i]);
            i += 1;
        } else {
            proof {
                lemma_merged_swap(out@, left@, right@, i as int, j as int, views, descending);
                lemma_take_left(
                    out@,
                    right@,
                    left@,
                    j as int,
                    i as int,
                    views,
                    descending,
                );
                lemma_merged_swap(
                    out@.push(right@[j as int]),
                    right@,
                    left@,
                    j + 1,
                    i as int,
                    views,
                    descending,
                );
            }
            out.push(right[j]);
            j += 1;
        }
    }
    proof {
        assert forall|k: int| 0 <= k < out@.len() implies lo <= (#[trigger] out@[k]) < hi by {
            assert(among(left@, i as int, out@[k]) || among(right@, j as int, out@[k]));
            if among(left@, i as int, out@[k]) {
                let p = choose|p: int| 0 <= p < i && left@[p] == out@[k];
                assert(lo <= left@[p] < mid);
            } else {
                let p = choose|p: int| 0 <= p < j && right@[p] == out@[k];
                assert(mid <= right@[p] < hi);
            }
        }
        assert forall|p: int| lo <= p < hi implies #[trigger] holds_place(out@, p) by {
            if p < mid {
                assert(holds_place(left@, p));
                let q = choose|q: int| 0 <= q < left@.len() && left@[q] == p;
                assert(0 <= q < i);
            } else {
                assert(holds_place(right@, p));
                let q = choose|q: int| 0 <= q < right@.len() && right@[q] == p;
                assert(0 <= q < j);
            }
        }
    }
    out
}

/// The stable order of a range of items.
fn sort_range(items: &Vec<SortItem>, descending: bool, lo: usize, hi: usize) -> (r: Vec<usize>)
    requires
        lo <= hi <= items@.len(),
    ensures
        orders_range(r@, item_views(items@), descending, lo as int, hi as int),
    decreases hi - lo,
{
    if hi - lo == 0 {
        return Vec::new();
    }
    if hi - lo == 1 {
        let mut one: Vec<usize> = Vec::new();
        one.push(lo);
        assert(one@[0] == lo);
        return one;
    }
    let mid: usize = lo + (hi - lo) / 2;
    let left = sort_range(items, descending, lo, mid);
    let right = sort_range(items, descending, mid, hi);
    merge(
        &left,
        &right,
        items,
        descending,
        Ghost(lo as int),
        Ghost(mid as int),
        Ghost(hi as int),
    )
}

/// The stable order of the items, as the places where they stand.
pub fn stable_order(items: &Vec<SortItem>, descending: bool) -> (r: Vec<usize>)
    ensures
        is_stable_order(r@, item_views(items@), descending),
{
    let n = items.len();
    assert(item_views(items@).len() == n);
    sort_range(items, descending, 0, n)
}

/// The items of a list in another order.
pub open spec fn rearranged<T>(items: Seq<T>, order: Seq<usize>) -> Seq<T> {
    order.map_values(|i: usize| items[i as int])
}

/// Brings the items of a list into another order.
pub fn rearrange<T>(items: &mut Vec<T>, order: &Vec<usize>)
    requires
        forall|k: int| 0 <= k < order@.len() ==> (#[trigger] order@[k]) < old(items)@.len(),
        forall|k: int, l: int|
            0 <= k < l < order@.len() ==> #[trigger] order@[k] != #[trigger] order@[l],
    ensures
        final(items)@ == rearranged(old(items)@, order@),
{
    let ghost all = items@;
    let mut slots: Vec<Option<T>> = Vec::new();
    let mut rest: Vec<T> = Vec::new();
    std::mem::swap(items, &mut rest);
    let n: usize = rest.len();
    let mut i: usize = 0;
    while i < n
        invariant
            i <= n == all.len(),
            rest@ == all.take(n - i),
            slots@.len() == i,
            forall|k: int| 0 <= k < i ==> #[trigger] slots@[k] == Some(all[n - 1 - k]),
            items@.len() == 0,
        decreases n - i,
    {
        let last = rest.pop();
        proof {
            assert(all.take(n - i).last() == all[n - 1 - i]);
            assert(rest@ =~= all.take(n - i - 1));
        }
        slots.push(last);
        i += 1;
    }
    let mut k: usize = 0;
    while k < order.len()
        invariant
            k <= order@.len(),
            n == all.len() == slots@.len(),
            forall|q: int| 0 <= q < order@.len() ==> (#[trigger] order@[q]) < n,
            forall|q: int, l: int|
                0 <= q < l < order@.len() ==> #[trigger] order@[q] != #[trigger] order@[l],
            forall|q: int| k <= q < order@.len() ==> slots@[n - 1 - (#[trigger] order@[q])] == Some(
                all[order@[q] as int],
            ),
            items@ == rearranged(all, order@).take(k as int),
        decreases order@.len() - k,
    {
        assert(order@[k as int] < n);
        let at: usize = n - 1 - order[k];
        let ghost before = slots@;
        let item = slots[at].take();
        proof {
            assert(slots@ =~= before.update(at as int, None));
            assert forall|q: int| k + 1 <= q < order@.len() implies slots@[n - 1 - (
            #[trigger] order@[q])] == Some(all[order@[q] as int]) by {
                assert(order@[q] != order@[k as int]);
            }
        }
        items.push(item.unwrap());
        k += 1;
        assert(items@ =~= rearranged(all, order@).take(k as int));
    }
    assert(rearranged(all, order@).take(k as int) =~= rearranged(all, order@));
}

/// An order holds no place twice.
pub proof fn lemma_order_distinct(order: Seq<usize>, items: Seq<ItemView>, descending: bool)
    requires
        is_stable_order(order, items, descending),
    ensures
        forall|k: int, l: int|
            0 <= k < l < order.len() ==> #[trigger] order[k] != #[trigger] order[l],
{
    assert forall|k: int, l: int| 0 <= k < l < order.len() implies #[trigger] order[k]
        != #[trigger] order[l] by {
        assert(place_before(items, descending, order[k] as int, order[l] as int));
        if order[k] == order[l] {
            lemma_key_irreflexive(items[order[k] as int].1);
        }
    }
}

/// Sorts a list stably by the keys of its items.
pub fn sort_by_items<T>(list: &mut Vec<T>, items: &Vec<SortItem>, descending: bool)
    requires
        items@.len() == old(list)@.len(),
    ensures
        exists|order: Seq<usize>|
            is_stable_order(order, item_views(items@), descending) && final(list)@
                == #[trigger] rearranged(old(list)@, order),
{
    let order = stable_order(items, descending);
    proof {
        lemma_order_distinct(order@, item_views(items@), descending);
    }
    rearrange(list, &order);
}

/// There is only one stable order of given items.
pub proof fn stable_order_is_unique(
    a: Seq<usize>,
    b: Seq<usize>,
    items: Seq<ItemView>,
    descending: bool,
)
    requires
        is_stable_order(a, items, descending),
        is_stable_order(b, items, descending),
    ensures
        a == b,
{
    lemma_order_distinct(a, items, descending);
    lemma_order_distinct(b, items, descending);
    lemma_same_prefix(a, b, items, descending, a.len() as int);
    assert(a =~= b);
}

proof fn lemma_place_asymmetric(items: Seq<ItemView>, descending: bool, i: int, j: int)
    requires
        place_before(items, descending, i, j),
    ensures
        !place_before(items, descending, j, i),
{
    if place_before(items, descending, j, i) {
        lemma_place_transitive(items, descending, i, j, i);
        lemma_key_irreflexive(items[i].1);
    }
}

proof fn lemma_same_prefix(
    a: Seq<usize>,
    b: Seq<usize>,
    items: Seq<ItemView>,
    descending: bool,
    n: int,
)
    requires
        is_stable_order(a, items, descending),
        is_stable_order(b, items, descending),
        0 <= n <= a.len(),
    ensures
        forall|k: int| 0 <= k < n ==> a[k] == b[k],
    decreases n,
{
    if n > 0 {
        lemma_same_prefix(a, b, items, descending, n - 1);
        lemma_order_distinct(a, items, descending);
        lemma_order_distinct(b, items, descending);
        let x = a[n - 1] as int;
        let y = b[n - 1] as int;
        assert(holds_place(b, x));
        assert(holds_place(a, y));
        let p = choose|k: int| 0 <= k < b.len() && b[k] == x;
        let q = choose|k: int| 0 <= k < a.len() && a[k] == y;
        if p < n - 1 {
            assert(a[p] == b[p]);
            assert(false);
        }
        if q < n - 1 {
            assert(a[q] == b[q]);
            assert(false);
        }
        if x != y {
            assert(place_before(items, descending, b[n - 1] as int, b[p] as int));
            assert(place_before(items, descending, a[n - 1] as int, a[q] as int));
            lemma_place_asymmetric(items, descending, x, y);
        }
    }
}

/// Where a place goes among the first `m` of an ordered list of other places.
proof fn lemma_cut(
    order: Seq<usize>,
    items: Seq<ItemView>,
    descending: bool,
    p: int,
    m: int,
) -> (k: int)
    requires
        0 <= m <= order.len(),
        forall|a: int| 0 <= a < order.len() ==> (#[trigger] order[a]) != p,
        forall|a: int, b: int|
            0 <= a < b < order.len() ==> place_before(
                items,
                descending,
                #[trigger] order[a] as int,
                #[trigger] order[b] as int,
            ),
    ensures
        0 <= k <= m,
        forall|a: int|
            0 <= a < k ==> place_before(items, descending, #[trigger] order[a] as int, p),
        forall|a: int|
            k <= a < m ==> place_before(items, descending, p, #[trigger] order[a] as int),
    decreases m,
{
    if m == 0 {
        0
    } else {
        let k = lemma_cut(order, items, descending, p, m - 1);
        let last = order[m - 1] as int;
        if k < m - 1 {
            lemma_place_transitive(items, descending, p, order[m - 2] as int, last);
            k
        } else if place_before(items, descending, last, p) {
            m
        } else {
            m - 1
        }
    }
}

proof fn lemma_range_has_order(items: Seq<ItemView>, descending: bool, n: int) -> (order: Seq<
    usize,
>)
    requires
        0 <= n <= items.len() <= usize::MAX,
    ensures
        orders_range(order, items, descending, 0, n),
    decreases n,
{
    if n == 0 {
        Seq::empty()
    } else {
        let p = n - 1;
        let o = lemma_range_has_order(items, descending, p);
        let k = lemma_cut(o, items, descending, p, o.len() as int);
        let t = o.insert(k, p as usize);
        assert forall|q: int| 0 <= q < n implies #[trigger] holds_place(t, q) by {
            if q == p {
                assert(t[k] == q);
            } else {
                assert(holds_place(o, q));
                let at = choose|at: int| 0 <= at < o.len() && o[at] == q;
                if at < k {
                    assert(t[at] == q);
                } else {
                    assert(t[at + 1] == q);
                }
            }
        }
        assert forall|a: int, b: int| 0 <= a < b < t.len() implies place_before(
            items,
            descending,
            #[trigger] t[a] as int,
            #[trigger] t[b] as int,
        ) by {
            let from = if a < k {
                a
            } else {
                a - 1
            };
            let to = if b < k {
                b
            } else {
                b - 1
            };
            assert(a != k ==> t[a] == o[from]);
            assert(b != k ==> t[b] == o[to]);
        }
        t
    }
}

/// Given items have a stable order.
pub proof fn stable_order_exists(items: Seq<ItemView>, descending: bool)
    requires
        items.len() <= usize::MAX,
    ensures
        exists|order: Seq<usize>| is_stable_order(order, items, descending),
{
    let order = lemma_range_has_order(items, descending, items.len() as int);
    assert(is_stable_order(order, items, descending));
}

/// Whether a list holds each of the first places once.
spec fn is_permutation(order: Seq<usize>) -> bool {
    &&& forall|k: int| 0 <= k < order.len() ==> (#[trigger] order[k]) < order.len()
    &&& forall|p: int| 0 <= p < order.len() ==> #[trigger] holds_place(order, p)
    &&& forall|k: int, l: int|
        0 <= k < l < order.len() ==> #[trigger] order[k] != #[trigger] order[l]
}

proof fn lemma_same_items<T>(list: Seq<T>, order: Seq<usize>)
    requires
        is_permutation(order),
        order.len() == list.len(),
    ensures
        rearranged(list, order).to_multiset() == list.to_multiset(),
    decreases list.len(),
{
    broadcast use vstd::seq_lib::group_to_multiset_ensures;

    let n = list.len() as int;
    if n == 0 {
        assert(rearranged(list, order) =~= list);
    } else {
        assert(holds_place(order, n - 1));
        let k = choose|k: int| 0 <= k < order.len() && order[k] == n - 1;
        let rest = order.remove(k);
        let short = list.drop_last();
        assert forall|a: int| 0 <= a < rest.len() implies (#[trigger] rest[a]) < rest.len() by {
            let b = if a < k {
                a
            } else {
                a + 1
            };
            assert(rest[a] == order[b]);
            assert(order[b] != order[k]);
        }
        assert forall|p: int| 0 <= p < rest.len() implies #[trigger] holds_place(rest, p) by {
            assert(holds_place(order, p));
            let b = choose|b: int| 0 <= b < order.len() && order[b] == p;
            if b < k {
                assert(rest[b] == p);
            } else {
                assert(rest[b - 1] == p);
            }
        }
        lemma_same_items(short, rest);
        let whole = rearranged(list, order);
        assert(whole.remove(k) =~= rearranged(short, rest));
        assert(whole[k] == list.last());
        assert(whole =~= whole.remove(k).insert(k, list.last()));
        assert(list =~= short.push(list.last()));
    }
}

/// Bringing a list into a stable order loses no item and adds none.
pub proof fn rearranging_keeps_every_item<T>(
    list: Seq<T>,
    order: Seq<usize>,
    items: Seq<ItemView>,
    descending: bool,
)
    requires
        is_stable_order(order, items, descending),
        items.len() == list.len(),
    ensures
        rearranged(list, order).len() == list.len(),
        rearranged(list, order).to_multiset() == list.to_multiset(),
{
    lemma_order_distinct(order, items, descending);
    lemma_same_items(list, order);
}

/// No key comes before itself.
pub proof fn lemma_key_not_before_itself(a: Seq<i128>)
    ensures
        !key_before(a, a),
{
    lemma_key_irreflexive(a);
}

/// Of two items in their order the second does not come before the first.
pub proof fn lemma_not_before_back(items: Seq<ItemView>, descending: bool, i: int, j: int)
    requires
        place_before(items, descending, i, j),
        items[i].0 == items[j].0,
    ensures
        !descending ==> !key_before(items[j].1, items[i].1),
        descending ==> !key_before(items[i].1, items[j].1),
{
    if key_before(items[i].1, items[j].1) {
        lemma_key_asymmetric(items[i].1, items[j].1);
    }
    if key_before(items[j].1, items[i].1) {
        lemma_key_asymmetric(items[j].1, items[i].1);
    }
}

/// Of two keys the first place at which they differ decides, and a key that ends there comes before
/// one that goes on.
pub proof fn first_difference_decides(a: Seq<i128>, b: Seq<i128>, at: int)
    requires
        0 <= at <= a.len(),
        at <= b.len(),
        forall|i: int| 0 <= i < at ==> a[i] == b[i],
        at < a.len() && at < b.len() ==> a[at] != b[at],
    ensures
        at == b.len() ==> !key_before(a, b),
        at == a.len() && at < b.len() ==> key_before(a, b),
        at < a.len() && at < b.len() ==> (key_before(a, b) <==> a[at] < b[at]),
    decreases at,
{
    if at > 0 {
        assert(a[0] == b[0]);
        first_difference_decides(a.skip(1), b.skip(1), at - 1);
    }
}

/// A sorted list holds what the list held, each item once, and nothing in it comes before what
/// stands in front of it.
pub proof fn sorted_list_holds_the_same<T>(
    list: Seq<T>,
    order: Seq<usize>,
    items: Seq<ItemView>,
    descending: bool,
)
    requires
        is_stable_order(order, items, descending),
        items.len() == list.len(),
    ensures
        rearranged(list, order).len() == list.len(),
        forall|p: int|
            0 <= p < list.len() ==> rearranged(list, order).contains(#[trigger] list[p]),
        forall|k: int, l: int|
            0 <= k < l < order.len() ==> #[trigger] order[k] != #[trigger] order[l],
        forall|k: int, l: int|
            0 <= k < l < order.len() && !items[order[k] as int].0 && !items[order[l] as int].0
                && !descending ==> !key_before(
                items[#[trigger] order[l] as int].1,
                items[#[trigger] order[k] as int].1,
            ),
        forall|k: int, l: int|
            0 <= k < l < order.len() && !items[order[k] as int].0 && !items[order[l] as int].0
                && descending ==> !key_before(
                items[#[trigger] order[k] as int].1,
                items[#[trigger] order[l] as int].1,
            ),
        forall|k: int, l: int|
            0 <= k < l < order.len() && items[#[trigger] order[l] as int].0 ==> items[
                #[trigger] order[k] as int].0,
{
    assert forall|p: int| 0 <= p < list.len() implies rearranged(list, order).contains(
        #[trigger] list[p],
    ) by {
        assert(holds_place(order, p));
        let k = choose|k: int| 0 <= k < order.len() && #[trigger] order[k] == p;
        assert(rearranged(list, order)[k] == list[p]);
    }
    assert forall|k: int, l: int| 0 <= k < l < order.len() implies #[trigger] order[k]
        != #[trigger] order[l] by {
        assert(place_before(items, descending, order[k] as int, order[l] as int));
        lemma_key_not_before_itself(items[order[k] as int].1);
    }
    assert forall|k: int, l: int|
        0 <= k < l < order.len() && items[#[trigger] order[l] as int].0 implies items[
        #[trigger] order[k] as int].0 by {
        assert(place_before(items, descending, order[k] as int, order[l] as int));
    }
    assert forall|k: int, l: int|
        0 <= k < l < order.len() && !items[order[k] as int].0 && !items[order[l] as int].0
            && !descending implies !key_before(
        items[#[trigger] order[l] as int].1,
        items[#[trigger] order[k] as int].1,
    ) by {
        let i = order[k] as int;
        let j = order[l] as int;
        assert(place_before(items, descending, i, j));
        if key_before(items[i].1, items[j].1) {
            lemma_key_asymmetric(items[i].1, items[j].1);
        }
    }
    assert forall|k: int, l: int|
        0 <= k < l < order.len() && !items[order[k] as int].0 && !items[order[l] as int].0
            && descending implies !key_before(
        items[#[trigger] order[k] as int].1,
        items[#[trigger] order[l] as int].1,
    ) by {
        let i = order[k] as int;
        let j = order[l] as int;
        assert(place_before(items, descending, i, j));
        if key_before(items[j].1, items[i].1) {
            lemma_key_asymmetric(items[j].1, items[i].1);
        }
    }
}

} // verus!
