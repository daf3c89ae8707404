//! Sorting, with what a sort promises.

use vstd::prelude::*;
use vstd::seq_lib::*;

verus! {

/// Whether a list of ids is in ascending order.
pub open spec fn ascending(ids: Seq<usize>) -> bool {
    forall|i: int, j: int| 0 <= i <= j < ids.len() ==> ids[i] <= ids[j]
}

/// The same ids in ascending order.
pub fn sort_ids(ids: &Vec<usize>) -> (r: Vec<usize>)
    ensures
        ascending(r@),
        r@.to_multiset() == ids@.to_multiset(),
        r.len() == ids.len(),
{
    let mut out: Vec<usize> = Vec::new();
    let mut n: usize = 0;
    assert(ids@.subrange(0, 0) == out@);
    while n < ids.len()
        invariant
            n <= ids.len(),
            out.len() == n,
            ascending(out@),
            out@.to_multiset() == ids@.subrange(0, n as int).to_multiset(),
        decreases ids.len() - n,
    {
        let id: usize = ids[n];
        let mut at: usize = out.len();
        while at > 0 && out[at - 1] > id
            invariant
                at <= out.len(),
                forall|k: int| at <= k < out.len() ==> out@[k] > id,
            decreases at,
        {
            at -= 1;
        }
        let ghost before = out@;
        out.insert(at, id);
        proof {
            to_multiset_insert(before, at as int, id);
            assert(ids@.subrange(0, n + 1) == ids@.subrange(0, n as int).push(id));
            ids@.subrange(0, n as int).to_multiset_ensures();
        }
        n += 1;
    }
    assert(ids@.subrange(0, ids@.len() as int) == ids@);
    out
}

/// Ids have one ascending order: two ascending lists of the same ids are the
/// same list.
pub proof fn law_one_ascending_order(a: Seq<usize>, b: Seq<usize>)
    requires
        ascending(a),
        ascending(b),
        a.to_multiset() == b.to_multiset(),
    ensures
        a == b,
{
    lemma_sorted_unique(a, b, |x: usize, y: usize| x <= y);
}

/// Whether each item of a list comes strictly before every later one.
pub open spec fn rising<T>(list: Seq<T>, before: spec_fn(T, T) -> bool) -> bool {
    forall|i: int, j: int| 0 <= i < j < list.len() ==> before(list[i], list[j])
}

/// Under a strict order, two rising lists of the same items are the same list.
pub proof fn lemma_rising_is_unique<T>(a: Seq<T>, b: Seq<T>, before: spec_fn(T, T) -> bool)
    requires
        rising(a, before),
        rising(b, before),
        forall|x: T, y: T| #[trigger] before(x, y) ==> !before(y, x),
        forall|x: T| a.contains(x) <==> b.contains(x),
    ensures
        a == b,
    decreases a.len(),
{
    if a.len() == 0 {
        if b.len() > 0 {
            assert(b.contains(b[0]));
        }
        assert(a == b);
    } else {
        assert(a.contains(a.last()));
        assert(b.contains(a.last()));
        let i = choose|i: int| 0 <= i < b.len() && b[i] == a.last();
        assert(b.contains(b.last()));
        let j = choose|j: int| 0 <= j < a.len() && a[j] == b.last();
        if i < b.len() - 1 {
            assert(before(b[i], b[b.len() - 1]));
            if j < a.len() - 1 {
                assert(before(a[j], a[a.len() - 1]));
            }
            assert(false);
        }
        assert(a.last() == b.last());
        let x = a.drop_last();
        let y = b.drop_last();
        assert forall|v: T| x.contains(v) <==> y.contains(v) by {
            if x.contains(v) {
                let k = choose|k: int| 0 <= k < x.len() && x[k] == v;
                assert(a[k] == v);
                assert(a.contains(v));
                assert(before(a[k], a[a.len() - 1]));
                let m = choose|m: int| 0 <= m < b.len() && b[m] == v;
                assert(m < b.len() - 1);
                assert(y[m] == v);
            }
            if y.contains(v) {
                let k = choose|k: int| 0 <= k < y.len() && y[k] == v;
                assert(b[k] == v);
                assert(b.contains(v));
                assert(before(b[k], b[b.len() - 1]));
                let m = choose|m: int| 0 <= m < a.len() && a[m] == v;
                assert(m < a.len() - 1);
                assert(x[m] == v);
            }
        }
        lemma_rising_is_unique(x, y, before);
        assert(a == x.push(a.last()));
        assert(b == y.push(b.last()));
    }
}

/// Whether a list holds exactly the ids of another, each once, in ascending
/// order.
pub open spec fn lists_once(list: Seq<usize>, ids: Seq<usize>) -> bool {
    &&& rising(list, |a: usize, b: usize| a < b)
    &&& forall|id: usize| list.contains(id) <==> ids.contains(id)
}

/// The ids of a list, each once, in ascending order.
pub open spec fn distinct_ids(ids: Seq<usize>) -> Seq<usize> {
    choose|list: Seq<usize>| lists_once(list, ids)
}

/// There is only one such list.
pub proof fn lemma_distinct_ids(list: Seq<usize>, ids: Seq<usize>)
    requires
        lists_once(list, ids),
    ensures
        distinct_ids(ids) == list,
{
    let chosen = distinct_ids(ids);
    assert(lists_once(chosen, ids));
    lemma_rising_is_unique(chosen, list, |a: usize, b: usize| a < b);
}

/// Whether a relation is a strict order of everything.
pub open spec fn orders<T>(before: spec_fn(T, T) -> bool) -> bool {
    &&& forall|x: T, y: T| #[trigger] before(x, y) ==> !before(y, x)
    &&& forall|x: T, y: T, z: T|
        #[trigger] before(x, y) && #[trigger] before(y, z) ==> before(x, z)
    &&& forall|x: T, y: T| #[trigger] before(x, y) || before(y, x) || x == y
}

/// Putting an item before the first that does not come before it, unless it is
/// that one, keeps a list rising.
pub(crate) proof fn lemma_placed<T>(list: Seq<T>, at: int, x: T, before: spec_fn(T, T) -> bool)
    requires
        orders(before),
        rising(list, before),
        0 <= at <= list.len(),
        forall|k: int| 0 <= k < at ==> before(#[trigger] list[k], x),
        at < list.len() ==> !before(list[at], x),
    ensures
        ({
            let more = if at < list.len() && list[at] == x {
                list
            } else {
                list.insert(at, x)
            };
            &&& rising(more, before)
            &&& forall|y: T| more.contains(y) <==> list.contains(y) || y == x
        }),
{
    let there = at < list.len() && list[at] == x;
    let more = if there {
        list
    } else {
        list.insert(at, x)
    };
    assert forall|i: int, j: int| 0 <= i < j < more.len() implies before(more[i], more[j]) by {
        if there {
        } else if j == at {
            assert(more[i] == list[i]);
        } else if i == at {
            assert(more[j] == list[j - 1]);
            assert(before(x, list[at]) || list[at] == x || before(list[at], x));
            if at < j - 1 {
                assert(before(list[at], list[j - 1]));
            }
        } else {
            let a = if i < at { i } else { i - 1 };
            let b = if j < at { j } else { j - 1 };
            assert(more[i] == list[a] && more[j] == list[b]);
            assert(before(list[a], list[b]));
        }
    }
    assert forall|y: T| more.contains(y) <==> list.contains(y) || y == x by {
        if list.contains(y) {
            let m = choose|m: int| 0 <= m < list.len() && list[m] == y;
            if !there {
                assert(more[if m < at { m } else { m + 1 }] == y);
            }
        }
        assert(more[at] == x);
        if more.contains(y) && y != x {
            let m = choose|m: int| 0 <= m < more.len() && more[m] == y;
            if !there {
                assert(list[if m < at { m } else { m - 1 }] == y);
            }
        }
    }
}

proof fn lemma_place<T>(list: Seq<T>, x: T, before: spec_fn(T, T) -> bool) -> (at: int)
    ensures
        0 <= at <= list.len(),
        forall|k: int| 0 <= k < at ==> before(#[trigger] list[k], x),
        at < list.len() ==> !before(list[at], x),
    decreases list.len(),
{
    if list.len() == 0 {
        0
    } else {
        let rest = list.drop_last();
        let at = lemma_place(rest, x, before);
        assert forall|k: int| 0 <= k < at implies before(#[trigger] list[k], x) by {
            assert(before(rest[k], x));
        }
        if at == rest.len() && before(list.last(), x) {
            at + 1
        } else {
            at
        }
    }
}

/// Under a strict order, any items can be listed rising, each once.
pub proof fn lemma_can_be_listed<T>(items: Seq<T>, before: spec_fn(T, T) -> bool) -> (list: Seq<T>)
    requires
        orders(before),
    ensures
        rising(list, before),
        forall|y: T| list.contains(y) <==> items.contains(y),
    decreases items.len(),
{
    if items.len() == 0 {
        items
    } else {
        let rest = items.drop_last();
        let x = items.last();
        let list = lemma_can_be_listed(rest, before);
        let at = lemma_place(list, x, before);
        lemma_placed(list, at, x, before);
        assert forall|y: T| items.contains(y) <==> rest.contains(y) || y == x by {
            if rest.contains(y) {
                let m = choose|m: int| 0 <= m < rest.len() && rest[m] == y;
                assert(items[m] == y);
            }
            assert(items[items.len() - 1] == x);
            if items.contains(y) && y != x {
                let m = choose|m: int| 0 <= m < items.len() && items[m] == y;
                assert(rest[m] == y);
            }
        }
        if at < list.len() && list[at] == x {
            list
        } else {
            list.insert(at, x)
        }
    }
}

/// The distinct ids of a list are the ids of the list, each once, ascending:
/// there always is such a list, and only the ids that occur decide which.
pub proof fn law_distinct_ids(ids: Seq<usize>, others: Seq<usize>)
    ensures
        lists_once(distinct_ids(ids), ids),
        (forall|id: usize| ids.contains(id) <==> others.contains(id)) ==> distinct_ids(ids)
            == distinct_ids(others),
{
    let list = lemma_can_be_listed(ids, |a: usize, b: usize| a < b);
    assert(lists_once(list, ids));
    lemma_distinct_ids(list, ids);
    if forall|id: usize| ids.contains(id) <==> others.contains(id) {
        assert forall|id: usize| list.contains(id) <==> others.contains(id) by {
            assert(ids.contains(id) <==> others.contains(id));
        }
        lemma_distinct_ids(list, others);
    }
}

/// Puts an id into a rising list, unless it is there.
pub(crate) fn insert_id(list: &mut Vec<usize>, id: usize, ids: Ghost<Seq<usize>>)
    requires
        lists_once(old(list)@, ids@),
    ensures
        lists_once(final(list)@, ids@.push(id)),
{
    let mut at: usize = 0;
    while at < list.len() && list[at] < id
        invariant
            at <= list.len(),
            forall|k: int| 0 <= k < at ==> list@[k] < id,
        decreases list.len() - at,
    {
        at += 1;
    }
    proof {
        lemma_placed(list@, at as int, id, |a: usize, b: usize| a < b);
        let more = ids@.push(id);
        assert forall|x: usize| more.contains(x) <==> ids@.contains(x) || x == id by {
            if ids@.contains(x) {
                let k = choose|k: int| 0 <= k < ids@.len() && ids@[k] == x;
                assert(more[k] == x);
            }
            assert(more[ids@.len() as int] == id);
        }
    }
    if at == list.len() || list[at] != id {
        list.insert(at, id);
    }
}

/// A list of things, last to first.
pub(crate) fn reversed<T>(list: Vec<T>) -> (r: Vec<T>)
    ensures
        r@ == list@.reverse(),
{
    let ghost all = list@;
    let mut ahead = list;
    let mut r: Vec<T> = Vec::new();
    while ahead.len() > 0
        invariant
            ahead@.len() + r@.len() == all.len(),
            ahead@ == all.subrange(0, ahead@.len() as int),
            forall|k: int| 0 <= k < r@.len() ==> #[trigger] r@[k] == all[all.len() - 1 - k],
        decreases ahead.len(),
    {
        match ahead.pop() {
            Some(item) => r.push(item),
            None => {},
        }
    }
    assert(r@ =~= all.reverse());
    r
}

/// Sorting gives back the very ids, ascending: each id occurs as often as
/// before.
pub proof fn law_sorting_keeps_the_ids(ids: &Vec<usize>, r: Vec<usize>)
    requires
        call_ensures(sort_ids, (ids,), r),
    ensures
        r@.len() == ids@.len(),
        forall|i: int, j: int| 0 <= i < j < r@.len() ==> r@[i] <= r@[j],
        forall|id: usize| #[trigger]
            r@.to_multiset().count(id) == ids@.to_multiset().count(id),
        forall|id: usize| r@.contains(id) <==> ids@.contains(id),
{
    r@.to_multiset_ensures();
    ids@.to_multiset_ensures();
    assert forall|id: usize| r@.contains(id) <==> ids@.contains(id) by {
        assert(r@.to_multiset().count(id) == ids@.to_multiset().count(id));
    }
}

/// What is listed once is ascending and without repeats, and holds exactly the
/// ids of the list it was made of.
pub proof fn law_distinct_ids_are_ascending(ids: Seq<usize>)
    ensures
        forall|i: int, j: int|
            0 <= i < j < distinct_ids(ids).len() ==> distinct_ids(ids)[i] < distinct_ids(ids)[j],
        forall|id: usize| distinct_ids(ids).contains(id) <==> ids.contains(id),
{
    law_distinct_ids(ids, ids);
}

} // verus!
