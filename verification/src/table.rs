//! The request table: one row for each path with a sample among the recent
//! requests, in a stable order by the chosen column.
use vstd::prelude::*;
use vstd::string::*;
use crate::control::SortBy;
use crate::histogram::Histogram;
use crate::request::{views, Request, RequestView};
use crate::text::{
    lemma_bytes_before_asymmetric, lemma_bytes_not_before_transitive, precedes, text_before,
};
use vstd::set_lib::{lemma_int_range, lemma_len_subset, lemma_subset_equality, set_int_range};
use vstd::utf8::encode_utf8;

verus! {

/// One line of the table: a path, how often it was requested, and the
/// address, status and user agent of the oldest recent request for it.
#[derive(Debug, PartialEq, Eq)]
pub struct Row {
    pub path: String,
    pub count: u64,
    pub ip: String,
    pub status_code: u16,
    pub user_agent: String,
}

/// The mathematical value of a [`Row`].
pub struct RowView {
    pub path: Seq<char>,
    pub count: nat,
    pub ip: Seq<char>,
    pub status_code: u16,
    pub user_agent: Seq<char>,
}

impl View for Row {
    type V = RowView;

    open spec fn view(&self) -> RowView {
        RowView {
            path: self.path@,
            count: self.count as nat,
            ip: self.ip@,
            status_code: self.status_code,
            user_agent: self.user_agent@,
        }
    }
}

/// A status code with the number of requests that ended in it.
#[derive(Clone, Copy, Debug, PartialEq, Eq)]
pub struct StatusCount {
    pub status_code: u16,
    pub count: u64,
}

impl View for StatusCount {
    type V = (u16, nat);

    open spec fn view(&self) -> (u16, nat) {
        (self.status_code, self.count as nat)
    }
}

/// The first of `recent` that asked for `path`, if any did.
pub open spec fn first_on_path(recent: Seq<RequestView>, path: Seq<char>) -> Option<RequestView>
    decreases recent.len(),
{
    if recent.len() == 0 {
        None
    } else if recent[0].path == path {
        Some(recent[0])
    } else {
        first_on_path(recent.drop_first(), path)
    }
}

/// The row of a path with its count and a sample request.
pub open spec fn row_of(entry: (Seq<char>, nat), sample: RequestView) -> RowView {
    RowView {
        path: entry.0,
        count: entry.1,
        ip: sample.ip,
        status_code: sample.status_code,
        user_agent: sample.user_agent,
    }
}

/// The rows of the table before sorting: the paths in the order of `paths`,
/// each with the first recent request for it, and without the paths for
/// which `recent` holds no request.
pub open spec fn joined(paths: Seq<(Seq<char>, nat)>, recent: Seq<RequestView>) -> Seq<RowView>
    decreases paths.len(),
{
    if paths.len() == 0 {
        Seq::empty()
    } else {
        let earlier = joined(paths.drop_last(), recent);
        match first_on_path(recent, paths.last().0) {
            Some(sample) => earlier.push(row_of(paths.last(), sample)),
            None => earlier,
        }
    }
}

/// Finds the first of `recent` that asked for `path`.
pub fn find_on_path<'a>(recent: &'a Vec<Request>, path: &String) -> (found: Option<&'a Request>)
    ensures
        match found {
            Some(request) => first_on_path(views(recent@), path@) == Some(request@),
            None => first_on_path(views(recent@), path@) is None,
        },
{
    let ghost all = views(recent@);
    let mut i: usize = 0;
    proof {
        assert(all.skip(0) =~= all);
    }
    while i < recent.len()
        invariant
            all == views(recent@),
            i <= recent@.len(),
            first_on_path(all, path@) == first_on_path(all.skip(i as int), path@),
        decreases recent@.len() - i,
    {
        proof {
            assert(all.skip(i as int).drop_first() =~= all.skip(i + 1));
        }
        if recent[i].path == *path {
            return Some(&recent[i]);
        }
        i += 1;
    }
    None
}

/// Joins the path counts with the recent requests.
pub fn join_rows(paths: &Histogram<String>, recent: &Vec<Request>) -> (rows: Vec<Row>)
    requires
        paths.wf(),
    ensures
        views(rows@) == joined(paths@, views(recent@)),
{
    let mut rows: Vec<Row> = Vec::new();
    let mut i: usize = 0;
    while i < paths.len()
        invariant
            paths.wf(),
            i <= paths@.len(),
            views(rows@) == joined(paths@.take(i as int), views(recent@)),
        decreases paths@.len() - i,
    {
        proof {
            assert(paths@.take(i + 1).drop_last() =~= paths@.take(i as int));
        }
        let path = paths.key(i);
        match find_on_path(recent, path) {
            Some(sample) => {
                rows.push(
                    Row {
                        path: path.clone(),
                        count: paths.count(i),
                        ip: sample.ip.clone(),
                        status_code: sample.status_code,
                        user_agent: sample.user_agent.clone(),
                    },
                );
            },
            None => {},
        }
        i += 1;
    }
    proof {
        assert(paths@.take(i as int) =~= paths@);
    }
    rows
}

/// Items that a column puts in order.
pub trait Ranked: View + Sized {
    /// What selects the order: a column, or nothing where there is one order.
    type Column;

    /// Whether `a` sorts strictly before `b`.
    spec fn before(a: Self::V, b: Self::V, by: Self::Column) -> bool;

    /// Tells whether `self` sorts strictly before `other`.
    fn goes_before(&self, other: &Self, by: &Self::Column) -> (r: bool)
        ensures
            r == Self::before(self@, other@, *by),
    ;

    /// No two items come before each other, and "not before" is transitive.
    proof fn lemma_strict_weak_order(a: Self::V, b: Self::V, c: Self::V, by: Self::Column)
        ensures
            !(Self::before(a, b, by) && Self::before(b, a, by)),
            !Self::before(a, b, by) && !Self::before(b, c, by) ==> !Self::before(a, c, by),
    ;
}

impl Ranked for Row {
    type Column = SortBy;

    /// Counts run from high to low; paths, addresses and user agents in the
    /// order of texts; status codes from low to high.
    open spec fn before(a: RowView, b: RowView, by: SortBy) -> bool {
        match by {
            SortBy::Count => a.count > b.count,
            SortBy::Path => text_before(a.path, b.path),
            SortBy::StatusCode => a.status_code < b.status_code,
            SortBy::IP => text_before(a.ip, b.ip),
            SortBy::UserAgent => text_before(a.user_agent, b.user_agent),
        }
    }

    fn goes_before(&self, other: &Row, by: &SortBy) -> (r: bool) {
        match by {
            SortBy::Count => self.count > other.count,
            SortBy::Path => precedes(self.path.as_str(), other.path.as_str()),
            SortBy::StatusCode => self.status_code < other.status_code,
            SortBy::IP => precedes(self.ip.as_str(), other.ip.as_str()),
            SortBy::UserAgent => precedes(self.user_agent.as_str(), other.user_agent.as_str()),
        }
    }

    proof fn lemma_strict_weak_order(a: RowView, b: RowView, c: RowView, by: SortBy) {
        match by {
            SortBy::Path => lemma_text_order(a.path, b.path, c.path),
            SortBy::IP => lemma_text_order(a.ip, b.ip, c.ip),
            SortBy::UserAgent => lemma_text_order(a.user_agent, b.user_agent, c.user_agent),
            _ => {},
        }
    }
}

impl Ranked for StatusCount {
    type Column = ();

    /// The status with more requests comes first.
    open spec fn before(a: (u16, nat), b: (u16, nat), by: ()) -> bool {
        a.1 > b.1
    }

    fn goes_before(&self, other: &StatusCount, by: &()) -> (r: bool) {
        self.count > other.count
    }

    proof fn lemma_strict_weak_order(a: (u16, nat), b: (u16, nat), c: (u16, nat), by: ()) {
    }
}

/// No two texts come before each other, and "not before" is transitive.
pub proof fn lemma_text_order(a: Seq<char>, b: Seq<char>, c: Seq<char>)
    ensures
        !(text_before(a, b) && text_before(b, a)),
        !text_before(a, b) && !text_before(b, c) ==> !text_before(a, c),
{
    lemma_bytes_before_asymmetric(encode_utf8(a), encode_utf8(b));
    if !text_before(a, b) && !text_before(b, c) {
        lemma_bytes_not_before_transitive(encode_utf8(a), encode_utf8(b), encode_utf8(c));
    }
}

/// The number of leading items of `sorted` that come before `x`.
pub open spec fn insertion_point<T: Ranked>(x: T::V, sorted: Seq<T::V>, by: T::Column) -> int
    decreases sorted.len(),
{
    if sorted.len() == 0 || !T::before(sorted[0], x, by) {
        0
    } else {
        1 + insertion_point::<T>(x, sorted.drop_first(), by)
    }
}

/// The items in stable order: sorted by `before`, items of which neither
/// comes before the other staying in the order in which `items` has them.
/// Each item, from the last to the first, is put in front of the items
/// sorted so far that do not come before it.
pub open spec fn stable_sorted<T: Ranked>(items: Seq<T::V>, by: T::Column) -> Seq<T::V>
    decreases items.len(),
{
    if items.len() == 0 {
        Seq::empty()
    } else {
        let rest = stable_sorted::<T>(items.drop_first(), by);
        rest.insert(insertion_point::<T>(items[0], rest, by), items[0])
    }
}

/// Whether the item at `i` of `items` has its place before the one at `j`:
/// it comes before it, or neither comes before the other and `i < j`.
pub open spec fn in_order<T: Ranked>(items: Seq<T::V>, by: T::Column, i: int, j: int) -> bool {
    T::before(items[i], items[j], by) || (!T::before(items[j], items[i], by) && i < j)
}

/// Whether `places` lists positions of `items`, as many as there are items,
/// each in its place before all that follow.
pub open spec fn is_stable_order<T: Ranked>(places: Seq<int>, items: Seq<T::V>, by: T::Column)
    -> bool {
    &&& places.len() == items.len()
    &&& forall|k: int| 0 <= k < places.len() ==> 0 <= #[trigger] places[k] < items.len()
    &&& forall|a: int, b: int|
        0 <= a < b < places.len() ==> in_order::<T>(items, by, #[trigger] places[a], #[trigger] places[b])
}

/// Whether `sorted` is `items` rearranged into a stable order.
pub open spec fn is_stable_sort<T: Ranked>(sorted: Seq<T::V>, items: Seq<T::V>, by: T::Column)
    -> bool {
    exists|places: Seq<int>|
        {
            &&& #[trigger] is_stable_order::<T>(places, items, by)
            &&& sorted.len() == items.len()
            &&& forall|k: int| 0 <= k < sorted.len() ==> #[trigger] sorted[k] == items[places[k]]
        }
}

/// The insertion point is a place of `sorted` or its end; all before it come
/// before `x`, and the item at it does not.
pub proof fn lemma_insertion_point<T: Ranked>(x: T::V, sorted: Seq<T::V>, by: T::Column)
    ensures
        0 <= insertion_point::<T>(x, sorted, by) <= sorted.len(),
        forall|j: int|
            0 <= j < insertion_point::<T>(x, sorted, by) ==> T::before(#[trigger] sorted[j], x, by),
        insertion_point::<T>(x, sorted, by) < sorted.len() ==> !T::before(
            sorted[insertion_point::<T>(x, sorted, by)],
            x,
            by,
        ),
    decreases sorted.len(),
{
    if sorted.len() > 0 && T::before(sorted[0], x, by) {
        let rest = sorted.drop_first();
        lemma_insertion_point::<T>(x, rest, by);
        assert forall|j: int| 0 <= j < insertion_point::<T>(x, sorted, by) implies T::before(
            #[trigger] sorted[j],
            x,
            by,
        ) by {
            if j > 0 {
                assert(sorted[j] == rest[j - 1]);
            }
        }
    }
}

/// The place up to which all items come before `x`, and at which the item
/// does not, is the insertion point.
pub proof fn lemma_insertion_point_at<T: Ranked>(x: T::V, sorted: Seq<T::V>, by: T::Column, p: int)
    requires
        0 <= p <= sorted.len(),
        forall|j: int| 0 <= j < p ==> T::before(#[trigger] sorted[j], x, by),
        p < sorted.len() ==> !T::before(sorted[p], x, by),
    ensures
        insertion_point::<T>(x, sorted, by) == p,
    decreases sorted.len(),
{
    if p > 0 {
        lemma_insertion_point_at::<T>(x, sorted.drop_first(), by, p - 1);
    }
}

/// Sorts `items` into stable order by `by`.
pub fn stable_sort<T: Ranked>(items: Vec<T>, by: &T::Column) -> (sorted: Vec<T>)
    ensures
        views(sorted@) == stable_sorted::<T>(views(items@), *by),
        is_stable_sort::<T>(views(sorted@), views(items@), *by),
{
    let ghost all = views(items@);
    let mut items = items;
    let mut sorted: Vec<T> = Vec::new();
    while items.len() > 0
        invariant
            items@.len() <= all.len(),
            views(items@) == all.take(items@.len() as int),
            views(sorted@) == stable_sorted::<T>(all.skip(items@.len() as int), *by),
        decreases items@.len(),
    {
        let ghost n = items@.len() as int;
        let ghost done = views(sorted@);
        let popped = items.pop();
        let x = popped.unwrap();
        let mut p: usize = 0;
        while p < sorted.len() && sorted[p].goes_before(&x, by)
            invariant
                p <= sorted@.len(),
                forall|j: int| 0 <= j < p ==> T::before(#[trigger] views(sorted@)[j], x@, *by),
            decreases sorted@.len() - p,
        {
            p += 1;
        }
        proof {
            assert(x@ == all.take(n)[n - 1]);
            lemma_insertion_point_at::<T>(x@, done, *by, p as int);
            assert(all.skip(n - 1).drop_first() =~= all.skip(n));
        }
        sorted.insert(p, x);
    }
    proof {
        lemma_stable_sorted_is_stable_sort::<T>(all, *by);
    }
    sorted
}

/// In a stable order every item stands after all that must come before it.
proof fn lemma_later_not_before<T: Ranked>(
    places: Seq<int>,
    items: Seq<T::V>,
    by: T::Column,
    a: int,
    b: int,
)
    requires
        is_stable_order::<T>(places, items, by),
        0 <= a <= b < places.len(),
    ensures
        !T::before(items[places[b]], items[places[a]], by),
{
    T::lemma_strict_weak_order(items[places[a]], items[places[b]], items[places[a]], by);
}

/// What `stable_sorted` yields is a stable sort of the items: the same
/// items, each exactly once, none after an item that it comes before, and
/// items that the order does not tell apart in the order they came in.
pub proof fn lemma_stable_sorted_is_stable_sort<T: Ranked>(items: Seq<T::V>, by: T::Column)
    ensures
        is_stable_sort::<T>(stable_sorted::<T>(items, by), items, by),
    decreases items.len(),
{
    let sorted = stable_sorted::<T>(items, by);
    if items.len() == 0 {
        let places = Seq::<int>::empty();
        assert(is_stable_order::<T>(places, items, by));
    } else {
        let tail = items.drop_first();
        let rest = stable_sorted::<T>(tail, by);
        let x = items[0];
        let p = insertion_point::<T>(x, rest, by);
        lemma_stable_sorted_is_stable_sort::<T>(tail, by);
        lemma_insertion_point::<T>(x, rest, by);
        let old_places = choose|places: Seq<int>|
            {
                &&& #[trigger] is_stable_order::<T>(places, tail, by)
                &&& rest.len() == tail.len()
                &&& forall|k: int| 0 <= k < rest.len() ==> #[trigger] rest[k] == tail[places[k]]
            };
        let places = Seq::new(
            items.len(),
            |k: int|
                if k < p {
                    old_places[k] + 1
                } else if k == p {
                    0
                } else {
                    old_places[k - 1] + 1
                },
        );
        assert forall|k: int| 0 <= k < sorted.len() implies #[trigger] sorted[k]
            == items[places[k]] by {}
        assert forall|a: int, b: int| 0 <= a < b < places.len() implies in_order::<T>(
            items,
            by,
            #[trigger] places[a],
            #[trigger] places[b],
        ) by {
            if a == p {
                // The new item against one behind it: that one does not come
                // before the item at the insertion point, which does not
                // come before the new item.
                lemma_later_not_before::<T>(old_places, tail, by, p, b - 1);
                T::lemma_strict_weak_order(rest[b - 1], rest[p], x, by);
            } else if b == p {
                // One ahead of the new item comes before it.
                assert(rest[a] == tail[old_places[a]]);
            }
        }
        assert(is_stable_order::<T>(places, items, by));
    }
}

/// A stable order lists no position twice.
proof fn lemma_stable_order_injective<T: Ranked>(
    places: Seq<int>,
    items: Seq<T::V>,
    by: T::Column,
    a: int,
    b: int,
)
    requires
        is_stable_order::<T>(places, items, by),
        0 <= a < places.len(),
        0 <= b < places.len(),
        a != b,
    ensures
        places[a] != places[b],
{
    let x = items[places[a]];
    T::lemma_strict_weak_order(x, x, x, by);
}

/// A stable order lists every position.
proof fn lemma_stable_order_covers<T: Ranked>(
    places: Seq<int>,
    items: Seq<T::V>,
    by: T::Column,
    position: int,
)
    requires
        is_stable_order::<T>(places, items, by),
        0 <= position < items.len(),
    ensures
        exists|k: int| 0 <= k < places.len() && places[k] == position,
{
    let n = items.len() as int;
    assert forall|i: int, j: int|
        0 <= i < places.len() && 0 <= j < places.len() && i != j implies places[i]
        != places[j] by {
        lemma_stable_order_injective::<T>(places, items, by, i, j);
    }
    places.unique_seq_to_set();
    lemma_int_range(0, n);
    assert(places.to_set().subset_of(set_int_range(0, n))) by {
        assert forall|v: int| places.to_set().contains(v) implies set_int_range(0, n).contains(
            v,
        ) by {
            let k = choose|k: int| 0 <= k < places.len() && places[k] == v;
        }
    }
    lemma_len_subset(places.to_set(), set_int_range(0, n));
    lemma_subset_equality(places.to_set(), set_int_range(0, n));
    assert(set_int_range(0, n).contains(position));
}

/// Two stable orders of the same items agree on their first `k` places.
proof fn lemma_stable_orders_agree<T: Ranked>(
    first: Seq<int>,
    second: Seq<int>,
    items: Seq<T::V>,
    by: T::Column,
    k: int,
)
    requires
        is_stable_order::<T>(first, items, by),
        is_stable_order::<T>(second, items, by),
        0 <= k <= items.len(),
    ensures
        forall|a: int| 0 <= a < k ==> first[a] == second[a],
    decreases k,
{
    if k > 0 {
        let j = k - 1;
        lemma_stable_orders_agree::<T>(first, second, items, by, j);
        let v = first[j];
        let w = second[j];
        lemma_stable_order_covers::<T>(second, items, by, v);
        lemma_stable_order_covers::<T>(first, items, by, w);
        let m = choose|m: int| 0 <= m < second.len() && second[m] == v;
        let l = choose|l: int| 0 <= l < first.len() && first[l] == w;
        // `v` stands at `j` in `first` and at `m` in `second`, `w` at `l`
        // and at `j`. Before `j` the two agree, so neither stands there.
        if m < j {
            lemma_stable_order_injective::<T>(first, items, by, m, j);
        }
        if l < j {
            lemma_stable_order_injective::<T>(second, items, by, l, j);
        }
        if m > j {
            if l == j {
                lemma_stable_order_injective::<T>(second, items, by, m, j);
            } else {
                // `second` has `w` ahead of `v`, and `first` has `v` ahead
                // of `w`: both cannot be.
                T::lemma_strict_weak_order(items[v], items[w], items[v], by);
            }
        }
    }
}

/// There is one stable sort of the items and no other: whatever rearranges
/// them into a stable order is what `stable_sorted` yields.
pub proof fn lemma_stable_sort_is_unique<T: Ranked>(
    sorted: Seq<T::V>,
    items: Seq<T::V>,
    by: T::Column,
)
    requires
        is_stable_sort::<T>(sorted, items, by),
    ensures
        sorted == stable_sorted::<T>(items, by),
{
    let other = stable_sorted::<T>(items, by);
    lemma_stable_sorted_is_stable_sort::<T>(items, by);
    let first = choose|places: Seq<int>|
        {
            &&& #[trigger] is_stable_order::<T>(places, items, by)
            &&& sorted.len() == items.len()
            &&& forall|k: int| 0 <= k < sorted.len() ==> #[trigger] sorted[k] == items[places[k]]
        };
    let second = choose|places: Seq<int>|
        {
            &&& #[trigger] is_stable_order::<T>(places, items, by)
            &&& other.len() == items.len()
            &&& forall|k: int| 0 <= k < other.len() ==> #[trigger] other[k] == items[places[k]]
        };
    lemma_stable_orders_agree::<T>(first, second, items, by, items.len() as int);
}

} // verus!
