//! Model of a bounded, version-keyed cache that evicts in admission order.
//!
//! Entries carry a memory charge. Admissions are queued; when the resident
//! charge exceeds the bound, the queue is taken from its front and every entry
//! that still has the version it was queued with leaves. A queued admission
//! whose entry has been replaced or has left is skipped.
use vstd::prelude::*;

verus! {

/// One cached entry.
#[verifier::ext_equal]
pub struct Held<P> {
    /// The version the entry was admitted for.
    pub version: Seq<u8>,
    /// The memory charge of the entry.
    pub charge: nat,
    /// What is cached.
    pub payload: P,
}

/// A cache: its entries, its admissions in order, and the resident charge.
#[verifier::ext_equal]
#[verifier::reject_recursive_types(K)]
pub struct Shelf<K, P> {
    pub entries: Map<K, Held<P>>,
    pub order: Seq<(K, Seq<u8>)>,
    pub resident: nat,
}

/// An empty cache.
pub open spec fn empty_shelf<K, P>() -> Shelf<K, P> {
    Shelf { entries: Map::empty(), order: Seq::empty(), resident: 0 }
}

/// The entry a queued admission was made for is still there.
pub open spec fn live<K, P>(entries: Map<K, Held<P>>, item: (K, Seq<u8>)) -> bool {
    entries.contains_key(item.0) && entries[item.0].version == item.1
}

/// A charge after taking `n` from it, at least zero.
pub open spec fn less(charge: nat, n: nat) -> nat {
    if charge >= n {
        (charge - n) as nat
    } else {
        0
    }
}

/// A charge clipped to the range of `usize`.
pub open spec fn clipped(n: nat) -> nat {
    if n <= usize::MAX {
        n
    } else {
        usize::MAX as nat
    }
}

/// The entry for `key` taken out.
pub open spec fn without<K, P>(s: Shelf<K, P>, key: K) -> Shelf<K, P> {
    if s.entries.contains_key(key) {
        Shelf {
            entries: s.entries.remove(key),
            resident: less(s.resident, s.entries[key].charge),
            order: s.order,
        }
    } else {
        s
    }
}

/// The admissions whose entries are still there.
pub open spec fn still_live<K, P>(entries: Map<K, Held<P>>, order: Seq<(K, Seq<u8>)>) -> Seq<
    (K, Seq<u8>),
>
    decreases order.len(),
{
    if order.len() == 0 {
        order
    } else {
        let head = still_live(entries, order.drop_last());
        if live(entries, order.last()) {
            head.push(order.last())
        } else {
            head
        }
    }
}

/// The queue, cleared of what is no longer there once it has grown too long
/// for the number of entries.
pub open spec fn compacted<K, P>(entries: Map<K, Held<P>>, order: Seq<(K, Seq<u8>)>) -> Seq<
    (K, Seq<u8>),
> {
    if order.len() > clipped(clipped(2 * entries.len()) + 1024) {
        still_live(entries, order)
    } else {
        order
    }
}

/// Entries taken out in admission order until the bound is met or the queue is
/// empty.
pub open spec fn evicted<K, P>(s: Shelf<K, P>, max: nat) -> Shelf<K, P>
    decreases s.order.len(),
{
    if s.resident > max && s.order.len() > 0 {
        let rest = Shelf { order: s.order.drop_first(), ..s };
        if live(s.entries, s.order[0]) {
            evicted(without(rest, s.order[0].0), max)
        } else {
            evicted(rest, max)
        }
    } else {
        s
    }
}

/// The cache after an admission that replaces whatever stood under the key.
/// An entry whose charge is over the bound is not admitted.
pub open spec fn admitted<K, P>(s: Shelf<K, P>, key: K, entry: Held<P>, max: nat) -> Shelf<K, P> {
    let cleared = without(s, key);
    if entry.charge > max {
        cleared
    } else {
        let entries = cleared.entries.insert(key, entry);
        evicted(
            Shelf {
                entries,
                order: compacted(entries, cleared.order.push((key, entry.version))),
                resident: clipped(cleared.resident + entry.charge),
            },
            max,
        )
    }
}

/// Sum of the charges of all entries.
pub open spec fn total<K, P>(entries: Map<K, Held<P>>) -> nat
    decreases entries.dom().len(),
{
    if entries.dom().finite() && entries.dom().len() > 0 {
        let k = entries.dom().choose();
        entries[k].charge + total(entries.remove(k))
    } else {
        0
    }
}

/// Every entry has a queued admission for its version.
pub open spec fn all_queued<K, P>(entries: Map<K, Held<P>>, order: Seq<(K, Seq<u8>)>) -> bool {
    forall|k: K|
        #[trigger] entries.contains_key(k) ==> order.contains((k, entries[k].version))
}

/// What holds of a cache before its bound is enforced.
pub open spec fn consistent<K, P>(s: Shelf<K, P>, max: nat) -> bool {
    &&& s.entries.dom().finite()
    &&& all_queued(s.entries, s.order)
    &&& s.resident <= total(s.entries)
    &&& 2 * max <= usize::MAX ==> s.resident == total(s.entries)
}

/// What holds of every cache: it is consistent and within its bound.
pub open spec fn bounded<K, P>(s: Shelf<K, P>, max: nat) -> bool {
    consistent(s, max) && s.resident <= max
}

/// One entry counts in the sum with its charge.
pub proof fn lemma_total_at<K, P>(entries: Map<K, Held<P>>, key: K)
    requires
        entries.dom().finite(),
        entries.contains_key(key),
    ensures
        total(entries) == entries[key].charge + total(entries.remove(key)),
    decreases entries.dom().len(),
{
    let c = entries.dom().choose();
    assert(entries.dom().len() > 0) by {
        assert(entries.dom().contains(key));
        if entries.dom().len() == 0 {
            assert(entries.dom() =~= Set::empty());
        }
    }
    assert(entries.dom().contains(c));
    if c != key {
        lemma_total_at(entries.remove(c), key);
        lemma_total_at(entries.remove(key), c);
        assert(entries.remove(c).remove(key) =~= entries.remove(key).remove(c));
    }
}

/// A new entry adds its charge to the sum.
pub proof fn lemma_total_insert<K, P>(entries: Map<K, Held<P>>, key: K, entry: Held<P>)
    requires
        entries.dom().finite(),
        !entries.contains_key(key),
    ensures
        total(entries.insert(key, entry)) == entry.charge + total(entries),
{
    let more = entries.insert(key, entry);
    assert(more.dom() =~= entries.dom().insert(key));
    lemma_total_at(more, key);
    assert(more.remove(key) =~= entries);
}

/// Clearing the queue keeps every admission that matters.
pub proof fn lemma_still_live<K, P>(
    entries: Map<K, Held<P>>,
    order: Seq<(K, Seq<u8>)>,
    item: (K, Seq<u8>),
)
    ensures
        still_live(entries, order).contains(item) <==> order.contains(item) && live(entries, item),
        still_live(entries, order).len() <= order.len(),
    decreases order.len(),
{
    if order.len() > 0 {
        let head = still_live(entries, order.drop_last());
        lemma_still_live(entries, order.drop_last(), item);
        assert(order =~= order.drop_last().push(order.last()));
        if order.contains(item) && item != order.last() {
            let i = choose|i: int| 0 <= i < order.len() && order[i] == item;
            assert(order.drop_last()[i] == item);
        }
        if order.drop_last().contains(item) {
            let i = choose|i: int|
                0 <= i < order.drop_last().len() && order.drop_last()[i] == item;
            assert(order[i] == item);
        }
        if live(entries, order.last()) {
            let all = head.push(order.last());
            if head.contains(item) {
                let i = choose|i: int| 0 <= i < head.len() && head[i] == item;
                assert(all[i] == item);
            }
            assert(all[head.len() as int] == order.last());
            assert(order[order.len() - 1] == order.last());
            if all.contains(item) && item != order.last() {
                let i = choose|i: int| 0 <= i < all.len() && all[i] == item;
                assert(head[i] == item);
            }
        }
    }
}

/// Taking an entry out keeps a cache consistent.
proof fn lemma_without<K, P>(s: Shelf<K, P>, key: K, max: nat)
    requires
        consistent(s, max),
    ensures
        consistent(without(s, key), max),
        without(s, key).resident <= s.resident,
        !without(s, key).entries.contains_key(key),
{
    if s.entries.contains_key(key) {
        lemma_total_at(s.entries, key);
        let after = without(s, key);
        assert forall|k: K| #[trigger] after.entries.contains_key(k) implies after.order.contains(
            (k, after.entries[k].version),
        ) by {
            assert(s.entries.contains_key(k));
        }
    }
}

/// Enforcing the bound meets it.
proof fn lemma_evicted<K, P>(s: Shelf<K, P>, max: nat)
    requires
        consistent(s, max),
    ensures
        bounded(evicted(s, max), max),
    decreases s.order.len(),
{
    if s.resident > max && s.order.len() > 0 {
        let front = s.order[0];
        let rest = Shelf { order: s.order.drop_first(), ..s };
        if live(s.entries, front) {
            let after = without(rest, front.0);
            lemma_total_at(s.entries, front.0);
            assert forall|k: K| #[trigger] after.entries.contains_key(k) implies after.order.contains(
                (k, after.entries[k].version),
            ) by {
                assert(s.entries.contains_key(k));
                lemma_behind_front(s.order, (k, s.entries[k].version));
            }
            lemma_evicted(after, max);
        } else {
            assert forall|k: K| #[trigger] rest.entries.contains_key(k) implies rest.order.contains(
                (k, rest.entries[k].version),
            ) by {
                assert(s.entries.contains_key(k));
                lemma_behind_front(s.order, (k, s.entries[k].version));
            }
            lemma_evicted(rest, max);
        }
    } else if s.order.len() == 0 {
        assert(s.entries.dom() =~= Set::empty()) by {
            assert forall|k: K| !s.entries.dom().contains(k) by {
                if s.entries.contains_key(k) {
                    assert(s.order.contains((k, s.entries[k].version)));
                }
            }
        }
    }
}

/// What stands in a queue and is not its front stands behind the front.
proof fn lemma_behind_front<T>(order: Seq<T>, item: T)
    requires
        order.len() > 0,
        order.contains(item),
        item != order[0],
    ensures
        order.drop_first().contains(item),
{
    let i = choose|i: int| 0 <= i < order.len() && order[i] == item;
    assert(order.drop_first()[i - 1] == item);
}

/// The state right after an entry has been queued is consistent.
proof fn lemma_queued<K, P>(s: Shelf<K, P>, key: K, entry: Held<P>, max: nat)
    requires
        bounded(s, max),
        entry.charge <= max,
        max <= usize::MAX,
    ensures
        ({
            let cleared = without(s, key);
            let entries = cleared.entries.insert(key, entry);
            consistent(
                Shelf {
                    entries,
                    order: compacted(entries, cleared.order.push((key, entry.version))),
                    resident: clipped(cleared.resident + entry.charge),
                },
                max,
            )
        }),
{
    lemma_without(s, key, max);
    let cleared = without(s, key);
    let entries = cleared.entries.insert(key, entry);
    let order = cleared.order.push((key, entry.version));
    lemma_total_insert(cleared.entries, key, entry);
    assert forall|k: K| #[trigger] entries.contains_key(k) implies compacted(
        entries,
        order,
    ).contains((k, entries[k].version)) by {
        let item = (k, entries[k].version);
        if k == key {
            assert(order[order.len() - 1] == item);
        } else {
            assert(cleared.entries.contains_key(k));
            let i = choose|i: int| 0 <= i < cleared.order.len() && cleared.order[i] == item;
            assert(order[i] == item);
        }
        lemma_still_live(entries, order, item);
    }
}

/// Every admission keeps a cache within its bound.
pub proof fn law_admission_keeps_bound<K, P>(s: Shelf<K, P>, key: K, entry: Held<P>, max: nat)
    requires
        bounded(s, max),
        max <= usize::MAX,
    ensures
        bounded(admitted(s, key, entry, max), max),
{
    lemma_without(s, key, max);
    if entry.charge <= max {
        let cleared = without(s, key);
        let entries = cleared.entries.insert(key, entry);
        lemma_queued(s, key, entry, max);
        lemma_evicted(
            Shelf {
                entries,
                order: compacted(entries, cleared.order.push((key, entry.version))),
                resident: clipped(cleared.resident + entry.charge),
            },
            max,
        );
    }
}

/// Within a bound of at most half the range of `usize`, the charges of all
/// entries together stay within the bound.
pub proof fn law_total_within_bound<K, P>(s: Shelf<K, P>, max: nat)
    requires
        bounded(s, max),
        2 * max <= usize::MAX,
    ensures
        total(s.entries) <= max,
{
}

/// An entry that is queued last, and nowhere else under its version, survives
/// the enforcement of the bound.
proof fn lemma_last_survives<K, P>(s: Shelf<K, P>, key: K, max: nat)
    requires
        consistent(s, max),
        2 * max <= usize::MAX,
        s.entries.contains_key(key),
        s.entries[key].charge <= max,
        s.order.len() > 0,
        s.order.last() == (key, s.entries[key].version),
        forall|i: int|
            0 <= i < s.order.len() - 1 ==> #[trigger] s.order[i] != (key, s.entries[key].version),
    ensures
        evicted(s, max).entries.contains_key(key),
        evicted(s, max).entries[key] == s.entries[key],
    decreases s.order.len(),
{
    if s.resident > max {
        let front = s.order[0];
        let item = (key, s.entries[key].version);
        if s.order.len() == 1 {
            assert(s.entries.remove(key).dom() =~= Set::empty()) by {
                assert forall|k: K| !s.entries.remove(key).dom().contains(k) by {
                    if s.entries.contains_key(k) && k != key {
                        assert(s.order.contains((k, s.entries[k].version)));
                    }
                }
            }
            lemma_total_at(s.entries, key);
            assert(false);
        }
        assert(front != item);
        let rest = Shelf { order: s.order.drop_first(), ..s };
        assert forall|k: K| #[trigger] s.entries.contains_key(k) && (
            !live(s.entries, front) || k != front.0) implies rest.order.contains(
            (k, s.entries[k].version),
        ) by {
            lemma_behind_front(s.order, (k, s.entries[k].version));
        }
        let next = if live(s.entries, front) {
            lemma_total_at(s.entries, front.0);
            without(rest, front.0)
        } else {
            rest
        };
        assert(all_queued(next.entries, next.order)) by {
            assert forall|k: K| #[trigger] next.entries.contains_key(k) implies next.order.contains(
                (k, next.entries[k].version),
            ) by {
                assert(s.entries.contains_key(k));
            }
        }
        assert(next.order.last() == item);
        assert forall|i: int| 0 <= i < next.order.len() - 1 implies #[trigger] next.order[i]
            != item by {
            assert(next.order[i] == s.order[i + 1]);
        }
        lemma_last_survives(next, key, max);
    }
}

/// What has just been admitted is there: whenever its charge is within the
/// bound and the queue holds no earlier admission of the same version.
pub proof fn law_admitted_entry_is_found<K, P>(s: Shelf<K, P>, key: K, entry: Held<P>, max: nat)
    requires
        bounded(s, max),
        2 * max <= usize::MAX,
        entry.charge <= max,
        !s.order.contains((key, entry.version)),
    ensures
        admitted(s, key, entry, max).entries.contains_key(key),
        admitted(s, key, entry, max).entries[key] == entry,
{
    let cleared = without(s, key);
    let entries = cleared.entries.insert(key, entry);
    let item = (key, entry.version);
    let order = cleared.order.push(item);
    let queue = compacted(entries, order);
    lemma_queued(s, key, entry, max);
    lemma_still_live_last(entries, cleared.order, item);
    assert forall|i: int| 0 <= i < queue.len() - 1 implies #[trigger] queue[i] != item by {
        if queue == order {
            assert(order[i] == cleared.order[i]);
            assert(cleared.order.contains(cleared.order[i]));
        } else {
            let head = still_live(entries, cleared.order);
            assert(queue[i] == head[i]);
            lemma_still_live(entries, cleared.order, queue[i]);
            assert(head.contains(head[i]));
        }
    }
    lemma_last_survives(
        Shelf { entries, order: queue, resident: clipped(cleared.resident + entry.charge) },
        key,
        max,
    );
}

/// Clearing keeps a live last admission last.
proof fn lemma_still_live_last<K, P>(
    entries: Map<K, Held<P>>,
    order: Seq<(K, Seq<u8>)>,
    item: (K, Seq<u8>),
)
    requires
        live(entries, item),
    ensures
        still_live(entries, order.push(item)) == still_live(entries, order).push(item),
{
    assert(order.push(item).drop_last() =~= order);
}

} // verus!
