//! A stable sort, stated by what it produces.

use vstd::prelude::*;
use vstd::seq_lib::*;
use vstd::set_lib::*;

verus! {

/// That `order` lists every position of a sequence of `len` elements once.
pub open spec fn is_arrangement(order: Seq<int>, len: int) -> bool {
    &&& order.len() == len
    &&& forall|k: int| 0 <= k < len ==> 0 <= #[trigger] order[k] < len
    &&& forall|i: int, j: int| 0 <= i < j < len ==> order[i] != order[j]
}

/// That `sorted` is `items` taken in the order `order`, with nothing out of
/// place: an element either precedes the ones behind it, or ties with them and
/// came first.
pub open spec fn sorts<V>(
    items: Seq<V>,
    sorted: Seq<V>,
    order: Seq<int>,
    before: spec_fn(V, V) -> bool,
) -> bool {
    &&& sorted.len() == items.len()
    &&& is_arrangement(order, items.len() as int)
    &&& forall|k: int| 0 <= k < sorted.len() ==> #[trigger] sorted[k] == items[order[k]]
    &&& forall|i: int, j: int|
        #![trigger sorted[i], sorted[j]]
        0 <= i < j < sorted.len() ==> before(sorted[i], sorted[j]) || (!before(
            sorted[j],
            sorted[i],
        ) && order[i] < order[j])
}

/// That `sorted` holds the elements of `items`, ordered by `before` and, among
/// the elements `before` does not separate, in the order they had.
pub open spec fn is_stable_sort<V>(
    items: Seq<V>,
    sorted: Seq<V>,
    before: spec_fn(V, V) -> bool,
) -> bool {
    exists|order: Seq<int>| sorts(items, sorted, order, before)
}

/// A value with a rank among others of its type.
pub trait Ranked: DeepView + Sized {
    /// Whether `a` ranks strictly before `b`.
    spec fn ranks_before(a: Self::V, b: Self::V) -> bool;

    /// The rank is a strict weak order.
    proof fn rank_is_an_order(a: Self::V, b: Self::V, c: Self::V)
        ensures
            !Self::ranks_before(a, a),
            Self::ranks_before(a, b) && Self::ranks_before(b, c) ==> Self::ranks_before(a, c),
            Self::ranks_before(a, c) ==> Self::ranks_before(a, b) || Self::ranks_before(b, c),
    ;

    fn is_ranked_before(&self, other: &Self) -> (before: bool)
        ensures
            before == Self::ranks_before(self.deep_view(), other.deep_view()),
    ;
}

/// The order of a ranked type, as a function of two values.
pub open spec fn rank_of<T: Ranked>() -> spec_fn(T::V, T::V) -> bool {
    |a: T::V, b: T::V| T::ranks_before(a, b)
}

/// The values in rank order; those of one rank keep the order they had.
pub fn stable_sorted<T: Ranked>(items: Vec<T>) -> (sorted: Vec<T>)
    ensures
        is_stable_sort(items.deep_view(), sorted.deep_view(), rank_of::<T>()),
        sorted.deep_view() == ranked::<T>(items.deep_view()),
{
    let ghost given = items.deep_view();
    let ghost mut order: Seq<int> = Seq::empty();
    let mut sorted: Vec<T> = Vec::new();
    let mut rest: Vec<T> = items;
    // The last of `rest` is inserted first, so each new element came before
    // everything already placed.
    while rest.len() > 0
        invariant
            rest.len() + sorted.len() == given.len(),
            rest.deep_view() == given.take(rest.len() as int),
            order.len() == sorted.len(),
            forall|k: int|
                0 <= k < order.len() ==> rest.len() <= #[trigger] order[k] < given.len(),
            forall|i: int, j: int| 0 <= i < j < order.len() ==> order[i] != order[j],
            forall|k: int|
                0 <= k < sorted.len() ==> #[trigger] sorted.deep_view()[k] == given[order[k]],
            forall|i: int, j: int|
                #![trigger sorted.deep_view()[i], sorted.deep_view()[j]]
                0 <= i < j < sorted.len() ==> T::ranks_before(
                    sorted.deep_view()[i],
                    sorted.deep_view()[j],
                ) || (!T::ranks_before(sorted.deep_view()[j], sorted.deep_view()[i]) && order[i]
                    < order[j]),
        decreases rest.len(),
    {
        let ghost before_pop = rest.deep_view();
        let item = rest.pop().unwrap();
        let ghost place = rest.len() as int;
        proof {
            assert(before_pop.len() == place + 1);
            assert(rest.deep_view() =~= given.take(place));
            assert(item.deep_view() == before_pop[place]);
            assert(item.deep_view() == given[place]);
        }
        let mut at: usize = 0;
        while at < sorted.len() && sorted[at].is_ranked_before(&item)
            invariant
                at <= sorted.len(),
                forall|k: int|
                    0 <= k < at ==> T::ranks_before(
                        #[trigger] sorted.deep_view()[k],
                        item.deep_view(),
                    ),
            decreases sorted.len() - at,
        {
            assert(T::ranks_before(sorted.deep_view()[at as int], item.deep_view()));
            at = at + 1;
        }
        let ghost old_sorted = sorted.deep_view();
        let ghost old_order = order;
        let ghost item_view = item.deep_view();
        sorted.insert(at, item);
        proof {
            order = old_order.insert(at as int, place);
            assert(sorted.deep_view() =~= old_sorted.insert(at as int, item_view));
            let s = sorted.deep_view();
            assert forall|i: int, j: int|
                #![trigger s[i], s[j]]
                0 <= i < j < s.len() implies T::ranks_before(s[i], s[j]) || (!T::ranks_before(
                s[j],
                s[i],
            ) && order[i] < order[j]) by {
                let oi = if i < at {
                    i
                } else {
                    i - 1
                };
                let oj = if j < at {
                    j
                } else {
                    j - 1
                };
                if i != at && j != at {
                    assert(s[i] == old_sorted[oi] && s[j] == old_sorted[oj]);
                } else if j == at {
                    assert(s[i] == old_sorted[i]);
                } else {
                    // `i` is the new element; `j` was at or behind the insertion point.
                    assert(s[j] == old_sorted[oj]);
                    assert(order[i] == place && order[j] == old_order[oj]);
                    assert(!T::ranks_before(old_sorted[at as int], item_view));
                    if T::ranks_before(s[j], s[i]) {
                        T::rank_is_an_order(old_sorted[oj], old_sorted[at as int], item_view);
                        if oj != at {
                            assert(T::ranks_before(old_sorted[at as int], old_sorted[oj])
                                || !T::ranks_before(old_sorted[oj], old_sorted[at as int]));
                            T::rank_is_an_order(old_sorted[at as int], old_sorted[oj], item_view);
                            T::rank_is_an_order(old_sorted[oj], item_view, old_sorted[at as int]);
                        }
                        assert(false);
                    }
                }
            }
        }
    }
    proof {
        assert(given.take(0).len() == 0);
        assert(sorts(given, sorted.deep_view(), order, rank_of::<T>()));
        lemma_is_ranked::<T>(given, sorted.deep_view());
    }
    sorted
}

/// Every position has a place in an arrangement.
pub proof fn lemma_arrangement_reaches(order: Seq<int>, len: int, position: int) -> (place: int)
    requires
        is_arrangement(order, len),
        0 <= position < len,
    ensures
        0 <= place < len,
        order[place] == position,
{
    let all = set_int_range(0, len);
    lemma_int_range(0, len);
    assert(order.no_duplicates()) by {
        assert forall|i: int, j: int|
            0 <= i < order.len() && 0 <= j < order.len() && i != j implies order[i] != order[j] by {
            if i < j {
                assert(order[i] != order[j]);
            } else {
                assert(order[j] != order[i]);
            }
        }
    }
    order.unique_seq_to_set();
    seq_to_set_is_finite(order);
    assert(order.to_set().subset_of(all)) by {
        assert forall|x: int| order.to_set().contains(x) implies all.contains(x) by {
            let k = choose|k: int| 0 <= k < order.len() && order[k] == x;
        }
    }
    lemma_subset_equality(order.to_set(), all);
    assert(order.to_set().contains(position));
    choose|k: int| 0 <= k < order.len() && order[k] == position
}

proof fn lemma_arrangements_agree<T: Ranked>(
    items: Seq<T::V>,
    a: Seq<T::V>,
    b: Seq<T::V>,
    p: Seq<int>,
    q: Seq<int>,
    n: int,
)
    requires
        sorts(items, a, p, rank_of::<T>()),
        sorts(items, b, q, rank_of::<T>()),
        0 <= n <= items.len(),
    ensures
        forall|k: int| 0 <= k < n ==> #[trigger] p[k] == q[k],
    decreases n,
{
    if n > 0 {
        let m = n - 1;
        lemma_arrangements_agree::<T>(items, a, b, p, q, m);
        let len = items.len() as int;
        let in_q = lemma_arrangement_reaches(q, len, p[m]);
        let in_p = lemma_arrangement_reaches(p, len, q[m]);
        if in_q < m {
            assert(p[in_q] == q[in_q]);
        }
        if in_p < m {
            assert(p[in_p] == q[in_p]);
        }
        if p[m] != q[m] {
            assert(m < in_q && m < in_p);
            // Each of the two elements stands before the other in one of the lists.
            assert(a[m] == items[p[m]] && a[in_p] == items[q[m]]);
            assert(b[m] == items[q[m]] && b[in_q] == items[p[m]]);
            T::rank_is_an_order(items[p[m]], items[q[m]], items[p[m]]);
            assert(false);
        }
    }
}

/// A stable sort has one outcome: the order cannot come out differently twice.
pub proof fn law_a_stable_sort_is_one<T: Ranked>(items: Seq<T::V>, a: Seq<T::V>, b: Seq<T::V>)
    requires
        is_stable_sort(items, a, rank_of::<T>()),
        is_stable_sort(items, b, rank_of::<T>()),
    ensures
        a == b,
{
    let p = choose|order: Seq<int>| sorts(items, a, order, rank_of::<T>());
    let q = choose|order: Seq<int>| sorts(items, b, order, rank_of::<T>());
    lemma_arrangements_agree::<T>(items, a, b, p, q, items.len() as int);
    assert(a =~= b);
}

/// The elements in rank order; those of one rank in the order they had.
pub open spec fn ranked<T: Ranked>(items: Seq<T::V>) -> Seq<T::V> {
    choose|sorted: Seq<T::V>| is_stable_sort(items, sorted, rank_of::<T>())
}

/// A stable sort is [`ranked`].
pub proof fn lemma_is_ranked<T: Ranked>(items: Seq<T::V>, sorted: Seq<T::V>)
    requires
        is_stable_sort(items, sorted, rank_of::<T>()),
    ensures
        sorted == ranked::<T>(items),
{
    law_a_stable_sort_is_one::<T>(items, sorted, ranked::<T>(items));
}

/// A sort loses nothing and adds nothing.
pub proof fn law_a_sort_keeps_its_elements<T: Ranked>(items: Seq<T::V>, sorted: Seq<T::V>, item: T::V)
    requires
        is_stable_sort(items, sorted, rank_of::<T>()),
    ensures
        sorted.len() == items.len(),
        sorted.contains(item) <==> items.contains(item),
{
    let order = choose|order: Seq<int>| sorts(items, sorted, order, rank_of::<T>());
    if sorted.contains(item) {
        let k = choose|k: int| 0 <= k < sorted.len() && sorted[k] == item;
        assert(items[order[k]] == item);
    }
    if items.contains(item) {
        let k = choose|k: int| 0 <= k < items.len() && items[k] == item;
        let place = lemma_arrangement_reaches(order, items.len() as int, k);
        assert(sorted[place] == item);
    }
}

/// Where an element that came first belongs among sorted ones: before all that
/// do not precede it.
spec fn place_in<T: Ranked>(sorted: Seq<T::V>, item: T::V) -> int
    decreases sorted.len(),
{
    if sorted.len() == 0 || !T::ranks_before(sorted[0], item) {
        0
    } else {
        1 + place_in::<T>(sorted.drop_first(), item)
    }
}

proof fn lemma_place_in<T: Ranked>(sorted: Seq<T::V>, item: T::V)
    ensures
        0 <= place_in::<T>(sorted, item) <= sorted.len(),
        forall|k: int|
            0 <= k < place_in::<T>(sorted, item) ==> T::ranks_before(#[trigger] sorted[k], item),
        place_in::<T>(sorted, item) < sorted.len() ==> !T::ranks_before(
            sorted[place_in::<T>(sorted, item)],
            item,
        ),
    decreases sorted.len(),
{
    if sorted.len() > 0 && T::ranks_before(sorted[0], item) {
        let rest = sorted.drop_first();
        lemma_place_in::<T>(rest, item);
        assert forall|k: int| 0 <= k < place_in::<T>(sorted, item) implies T::ranks_before(
            #[trigger] sorted[k],
            item,
        ) by {
            if k > 0 {
                assert(rest[k - 1] == sorted[k]);
            }
        }
    }
}

/// Every sequence has a stable sort, which [`ranked`] is.
pub proof fn lemma_ranked_is_sorted<T: Ranked>(items: Seq<T::V>)
    ensures
        is_stable_sort(items, ranked::<T>(items), rank_of::<T>()),
    decreases items.len(),
{
    let before = rank_of::<T>();
    if items.len() == 0 {
        assert(sorts(items, items, Seq::empty(), before));
        lemma_is_ranked::<T>(items, items);
    } else {
        let x = items[0];
        let rest = items.drop_first();
        lemma_ranked_is_sorted::<T>(rest);
        let s = ranked::<T>(rest);
        let q = choose|order: Seq<int>| sorts(rest, s, order, before);
        let at = place_in::<T>(s, x);
        lemma_place_in::<T>(s, x);
        let sorted = s.insert(at, x);
        let shifted = Seq::new(q.len(), |k: int| q[k] + 1);
        let order = shifted.insert(at, 0);
        assert forall|k: int| 0 <= k < sorted.len() implies #[trigger] sorted[k]
            == items[order[k]] by {
            if k < at {
                assert(s[k] == rest[q[k]]);
            } else if k > at {
                assert(s[k - 1] == rest[q[k - 1]]);
            }
        }
        assert(is_arrangement(order, items.len() as int)) by {
            assert forall|i: int, j: int| 0 <= i < j < items.len() implies order[i]
                != order[j] by {
                if i != at && j != at {
                    let a = if i < at {
                        i
                    } else {
                        i - 1
                    };
                    let b = if j < at {
                        j
                    } else {
                        j - 1
                    };
                    assert(q[a] != q[b]);
                }
            }
        }
        assert forall|i: int, j: int|
            #![trigger sorted[i], sorted[j]]
            0 <= i < j < sorted.len() implies before(sorted[i], sorted[j]) || (!before(
            sorted[j],
            sorted[i],
        ) && order[i] < order[j]) by {
            let a = if i < at {
                i
            } else {
                i - 1
            };
            let b = if j < at {
                j
            } else {
                j - 1
            };
            if i == at {
                if b > at {
                    assert(before(s[at], s[b]) || !before(s[b], s[at]));
                    T::rank_is_an_order(s[b], s[at], x);
                    T::rank_is_an_order(s[at], s[b], x);
                }
            } else if j == at {
            } else {
                assert(before(s[a], s[b]) || (!before(s[b], s[a]) && q[a] < q[b]));
            }
        }
        assert(sorts(items, sorted, order, before));
        lemma_is_ranked::<T>(items, sorted);
    }
}

} // verus!
