//! Stable sorting by an order that is given with the items.
use crate::text::Order;
use vstd::prelude::*;

verus! {

/// An order on items.
pub trait Sorter: Sized {
    /// What is sorted.
    type Item;

    /// How two items stand to each other.
    spec fn order_of(self, a: Self::Item, b: Self::Item) -> Order;

    /// Compares two items.
    fn order(&self, a: &Self::Item, b: &Self::Item) -> (r: Order)
        ensures
            r == self.order_of(*a, *b),
    ;
}

/// `item` placed into a list, behind everything that does not sort after it.
pub open spec fn placed<S: Sorter>(s: S, list: Seq<S::Item>, item: S::Item) -> Seq<S::Item>
    decreases list.len(),
{
    if list.len() > 0 && s.order_of(list.last(), item) == Order::Greater {
        placed(s, list.drop_last(), item).push(list.last())
    } else {
        list.push(item)
    }
}

/// A list in order; items that compare equal stay in the order they had.
pub open spec fn sorted<S: Sorter>(s: S, list: Seq<S::Item>) -> Seq<S::Item>
    decreases list.len(),
{
    if list.len() == 0 {
        list
    } else {
        placed(s, sorted(s, list.drop_last()), list.last())
    }
}

/// No item sorts after one that follows it.
pub open spec fn in_order<S: Sorter>(s: S, list: Seq<S::Item>) -> bool {
    forall|i: int, j: int|
        0 <= i < j < list.len() ==> s.order_of(#[trigger] list[i], #[trigger] list[j])
            != Order::Greater
}

/// The order can be chained, and looks the same from both sides.
pub open spec fn lawful<S: Sorter>(s: S) -> bool {
    &&& forall|a: S::Item, b: S::Item| #[trigger] s.order_of(b, a) == s.order_of(a, b).flip()
    &&& forall|a: S::Item, b: S::Item, c: S::Item|
        #[trigger] s.order_of(a, b) != Order::Greater && #[trigger] s.order_of(b, c)
            != Order::Greater ==> s.order_of(a, c) != Order::Greater
}

fn place<S: Sorter>(s: &S, list: &mut Vec<S::Item>, item: S::Item)
    ensures
        final(list)@ == placed(*s, old(list)@, item),
{
    let ghost all = list@;
    let mut k: usize = list.len();
    proof {
        assert(all.take(all.len() as int) =~= all);
        assert(placed(*s, all, item) =~= placed(*s, all.take(k as int), item) + all.skip(k as int));
    }
    while k > 0 && s.order(&list[k - 1], &item) == Order::Greater
        invariant
            k <= list@.len(),
            list@ == all,
            placed(*s, all, item) == placed(*s, all.take(k as int), item) + all.skip(k as int),
        decreases k,
    {
        proof {
            let head = all.take(k as int);
            assert(head.drop_last() =~= all.take(k - 1));
            assert(head.last() == all[k - 1]);
            assert(placed(*s, all.take(k - 1), item).push(head.last()) + all.skip(k as int)
                =~= placed(*s, all.take(k - 1), item) + all.skip(k - 1));
        }
        k = k - 1;
    }
    proof {
        let head = all.take(k as int);
        if k > 0 {
            assert(head.last() == all[k - 1]);
        }
        assert(head.push(item) + all.skip(k as int) =~= all.insert(k as int, item));
    }
    list.insert(k, item);
}

/// Sorts a list.
pub fn sort<S: Sorter>(s: &S, list: Vec<S::Item>) -> (r: Vec<S::Item>)
    ensures
        r@ == sorted(*s, list@),
{
    let ghost all = list@;
    let mut rest = crate::covered_reads::queue_of(list);
    let mut out: Vec<S::Item> = Vec::new();
    proof {
        assert(all.take(0) =~= Seq::empty());
        assert(out@ =~= sorted(*s, all.take(0)));
    }
    let ghost mut i: int = 0;
    while rest.len() > 0
        invariant
            0 <= i <= all.len(),
            rest@ =~= all.skip(i),
            out@ == sorted(*s, all.take(i)),
        decreases rest@.len(),
    {
        let ghost left = rest@;
        if let Some(item) = rest.pop_front() {
            proof {
                assert(left[0] == all[i]);
                assert(all.take(i + 1).drop_last() =~= all.take(i));
                assert(all.take(i + 1).last() == item);
            }
            place(s, &mut out, item);
            proof {
                i = i + 1;
            }
        }
    }
    proof {
        assert(all.take(all.len() as int) =~= all);
    }
    out
}

proof fn lemma_placed<S: Sorter>(s: S, list: Seq<S::Item>, item: S::Item)
    ensures
        placed(s, list, item).to_multiset() == list.to_multiset().insert(item),
        placed(s, list, item).len() == list.len() + 1,
    decreases list.len(),
{
    broadcast use vstd::seq_lib::group_to_multiset_ensures;

    if list.len() > 0 && s.order_of(list.last(), item) == Order::Greater {
        let head = list.drop_last();
        lemma_placed(s, head, item);
        assert(list =~= head.push(list.last()));
        assert(placed(s, list, item).to_multiset() =~= list.to_multiset().insert(item));
    } else {
        assert(list.push(item).to_multiset() =~= list.to_multiset().insert(item));
    }
}

/// Sorting loses nothing and adds nothing.
pub proof fn law_sorted_is_permutation<S: Sorter>(s: S, list: Seq<S::Item>)
    ensures
        sorted(s, list).to_multiset() == list.to_multiset(),
        sorted(s, list).len() == list.len(),
    decreases list.len(),
{
    broadcast use vstd::seq_lib::group_to_multiset_ensures;

    if list.len() > 0 {
        law_sorted_is_permutation(s, list.drop_last());
        lemma_placed(s, sorted(s, list.drop_last()), list.last());
        assert(list =~= list.drop_last().push(list.last()));
    }
}

proof fn lemma_placed_from<S: Sorter>(s: S, list: Seq<S::Item>, item: S::Item, k: int)
    requires
        0 <= k < placed(s, list, item).len(),
    ensures
        placed(s, list, item)[k] == item || list.contains(placed(s, list, item)[k]),
    decreases list.len(),
{
    lemma_placed(s, list, item);
    if list.len() > 0 && s.order_of(list.last(), item) == Order::Greater {
        let head = list.drop_last();
        lemma_placed(s, head, item);
        if k < placed(s, head, item).len() {
            lemma_placed_from(s, head, item, k);
            if placed(s, head, item)[k] != item {
                let w = choose|w: int| 0 <= w < head.len() && head[w] == placed(s, head, item)[k];
                assert(list[w] == placed(s, list, item)[k]);
            }
        } else {
            assert(list[list.len() - 1] == placed(s, list, item)[k]);
        }
    } else if k < list.len() {
        assert(list[k] == placed(s, list, item)[k]);
    }
}

proof fn lemma_placed_in_order<S: Sorter>(s: S, list: Seq<S::Item>, item: S::Item)
    requires
        lawful(s),
        in_order(s, list),
    ensures
        in_order(s, placed(s, list, item)),
    decreases list.len(),
{
    lemma_placed(s, list, item);
    let all = placed(s, list, item);
    if list.len() > 0 && s.order_of(list.last(), item) == Order::Greater {
        let head = list.drop_last();
        let part = placed(s, head, item);
        assert(in_order(s, head));
        lemma_placed_in_order(s, head, item);
        lemma_placed(s, head, item);
        assert forall|i: int, j: int| 0 <= i < j < all.len() implies s.order_of(
            #[trigger] all[i],
            #[trigger] all[j],
        ) != Order::Greater by {
            if j == part.len() {
                lemma_placed_from(s, head, item, i);
                assert(all[i] == part[i]);
                if part[i] == item {
                    assert(s.order_of(item, list.last()) == s.order_of(list.last(), item).flip());
                } else {
                    let w = choose|w: int| 0 <= w < head.len() && head[w] == part[i];
                    assert(list[w] == part[i]);
                    assert(s.order_of(list[w], list[list.len() - 1]) != Order::Greater);
                }
            } else {
                assert(all[i] == part[i] && all[j] == part[j]);
            }
        }
    } else {
        assert forall|i: int, j: int| 0 <= i < j < all.len() implies s.order_of(
            #[trigger] all[i],
            #[trigger] all[j],
        ) != Order::Greater by {
            if j == list.len() && i + 1 < list.len() {
                assert(s.order_of(list[i], list[list.len() - 1]) != Order::Greater);
                assert(s.order_of(list.last(), item) != Order::Greater);
            }
        }
    }
}

/// Under a lawful order, sorting puts items in order.
pub proof fn law_sorted_is_in_order<S: Sorter>(s: S, list: Seq<S::Item>)
    requires
        lawful(s),
    ensures
        in_order(s, sorted(s, list)),
    decreases list.len(),
{
    if list.len() > 0 {
        law_sorted_is_in_order(s, list.drop_last());
        lemma_placed_in_order(s, sorted(s, list.drop_last()), list.last());
    }
}

} // verus!
