//! What routes and listings mean: where a key is sent, what a failure does to
//! that, and what the rows of a cluster scan and the names of a catalog are.
use crate::cluster_backend::{
    cluster_matches, failed_attempt, fresh, own_subject_keys, read_moved, read_step, write_moved,
    write_step, ClusterEntry, ClusterError, RouteLoopView,
};
use crate::codec::from_le8;
use crate::digest::blake3_digest;
use crate::directory_cache::{
    entry_refreshed, partition_for, replaced, route_for, routes_of, AssignmentWire, CacheView,
    DirectoryView, RouteView,
};
use crate::filter::{filter_matches, FilterView};
use crate::heap::{active, first_named, CatalogEntry, ListedCollectionView};
use crate::json::JsonView;
use crate::text::texts;
use vstd::prelude::*;

verus! {

/// A key falls into one of the partitions: the first eight bytes of its
/// digest, the lowest first, modulo their number.
pub proof fn law_key_falls_into_a_partition(key: Seq<u8>, partitions: u32)
    requires
        partitions > 0,
    ensures
        0 <= partition_for(key, partitions) < partitions,
        ({
            let d = blake3_digest(key);
            let number = d[0] + 256 * (d[1] + 256 * (d[2] + 256 * (d[3] + 256 * (d[4] + 256 * (d[5]
                + 256 * (d[6] + 256 * d[7]))))));
            partition_for(key, partitions) == number % (partitions as int)
        }),
{
    let d = blake3_digest(key);
    let number = d[0] + 256 * (d[1] + 256 * (d[2] + 256 * (d[3] + 256 * (d[4] + 256 * (d[5] + 256
        * (d[6] + 256 * d[7]))))));
    assert(from_le8(d) == number);
}

/// An assignment is the last one of its partition.
pub open spec fn last_of_its_partition(assignments: Seq<RouteView>, i: int) -> bool {
    &&& 0 <= i < assignments.len()
    &&& forall|j: int|
        i < j < assignments.len() ==> (#[trigger] assignments[j]).partition
            != assignments[i].partition
}

proof fn lemma_last_route(assignments: Seq<RouteView>, i: int)
    requires
        last_of_its_partition(assignments, i),
    ensures
        routes_of(assignments).contains_key(assignments[i].partition),
        routes_of(assignments)[assignments[i].partition] == assignments[i],
    decreases assignments.len(),
{
    let n = assignments.len() - 1;
    if i < n {
        let shorter = assignments.drop_last();
        assert(assignments[n].partition != assignments[i].partition);
        assert forall|j: int| i < j < shorter.len() implies (#[trigger] shorter[j]).partition
            != shorter[i].partition by {
            assert(shorter[j] == assignments[j]);
        }
        lemma_last_route(shorter, i);
    }
}

proof fn lemma_no_route(assignments: Seq<RouteView>, p: u32)
    requires
        forall|j: int| 0 <= j < assignments.len() ==> (#[trigger] assignments[j]).partition != p,
    ensures
        !routes_of(assignments).contains_key(p),
    decreases assignments.len(),
{
    if assignments.len() > 0 {
        let shorter = assignments.drop_last();
        assert forall|j: int| 0 <= j < shorter.len() implies (#[trigger] shorter[j]).partition
            != p by {
            assert(shorter[j] == assignments[j]);
        }
        lemma_no_route(shorter, p);
        assert(assignments[assignments.len() - 1].partition != p);
    }
}

/// After a refresh of the whole directory a key is routed by the last
/// assignment of its partition, and nowhere where there is none. Nothing is
/// stale, and what the directory says of itself is what the snapshot says.
pub proof fn law_directory_routes_by_its_assignments(
    c: CacheView,
    s: DirectoryView,
    key: Seq<u8>,
    i: int,
)
    requires
        s.virtual_partitions > 0,
    ensures
        ({
            let p = partition_for(key, s.virtual_partitions) as u32;
            let after = replaced(c, s);
            &&& last_of_its_partition(s.assignments, i) && s.assignments[i].partition == p
                ==> route_for(after, key) == Some(s.assignments[i])
            &&& (forall|j: int|
                0 <= j < s.assignments.len() ==> (#[trigger] s.assignments[j]).partition != p)
                ==> route_for(after, key) is None
            &&& forall|q: u32| !#[trigger] after.stale.contains(q)
            &&& after.placement_epoch == s.placement_epoch
            &&& after.virtual_partitions == s.virtual_partitions
            &&& after.endpoints == s.endpoints
        }),
{
    let p = partition_for(key, s.virtual_partitions) as u32;
    if last_of_its_partition(s.assignments, i) {
        lemma_last_route(s.assignments, i);
    }
    if forall|j: int|
        0 <= j < s.assignments.len() ==> (#[trigger] s.assignments[j]).partition != p {
        lemma_no_route(s.assignments, p);
    }
}

/// A refresh of one entry gives that partition its new route and leaves the
/// routes and the staleness of all others. The epoch of the directory never
/// goes back.
pub proof fn law_entry_refresh_touches_one_partition(
    c: CacheView,
    a: RouteView,
    key: Seq<u8>,
    other: u32,
)
    ensures
        ({
            let after = entry_refreshed(c, a);
            &&& partition_for(key, c.virtual_partitions) as u32 == a.partition ==> route_for(
                after,
                key,
            ) == Some(a)
            &&& partition_for(key, c.virtual_partitions) as u32 != a.partition ==> route_for(
                after,
                key,
            ) == route_for(c, key)
            &&& !after.stale.contains(a.partition)
            &&& other != a.partition ==> after.stale.contains(other) == c.stale.contains(other)
            &&& after.placement_epoch >= c.placement_epoch
            &&& after.placement_epoch >= a.placement_epoch
            &&& after.placement_epoch == c.placement_epoch || after.placement_epoch
                == a.placement_epoch
            &&& after.endpoints == c.endpoints
            &&& after.virtual_partitions == c.virtual_partitions
        }),
{
}

/// A partition without a leader, or that cannot be reached, makes its route
/// stale and counts as an attempt, on a write and on a read. Every other
/// failure leaves the directory and the attempts as they are. Nothing else
/// grows stale.
pub proof fn law_lost_leader_makes_the_route_stale<A>(
    s: RouteLoopView,
    c: CacheView,
    key: Seq<u8>,
    failure: ClusterError,
    other: u32,
)
    ensures
        ({
            let p = partition_for(key, c.virtual_partitions) as u32;
            let outcome = Err::<(A, Option<AssignmentWire>), ClusterError>(failure);
            let (s1, c1) = write_step(s, c, p, outcome);
            let (s2, c2) = read_step(s, c, p, outcome);
            &&& failure is NoLeader || failure is PartitionUnavailable ==> !fresh(c1, key)
                && !fresh(c2, key) && s1.attempt == failed_attempt(s, s1.last->0).attempt
                && s2.attempt == s1.attempt
            &&& !(failure is NoLeader) && !(failure is PartitionUnavailable) ==> c1 == c && c2 == c
                && s1 == s && s2 == s
            &&& other != p ==> c1.stale.contains(other) == c.stale.contains(other)
            &&& other != p ==> c2.stale.contains(other) == c.stale.contains(other)
            &&& c1.routes == c.routes && c2.routes == c.routes
        }),
{
}

/// A success leaves the attempts as they are, and takes over what it tells of
/// the live route.
pub proof fn law_success_takes_over_the_live_route<A>(
    s: RouteLoopView,
    c: CacheView,
    partition: u32,
    done: A,
    live: AssignmentWire,
)
    ensures
        ({
            let seen = Ok::<(A, Option<AssignmentWire>), ClusterError>((done, Some(live)));
            let silent = Ok::<(A, Option<AssignmentWire>), ClusterError>((done, None));
            &&& write_step(s, c, partition, seen).0 == s
            &&& write_step(s, c, partition, seen).1.routes.contains_key(live@.partition)
            &&& write_step(s, c, partition, seen).1.routes[live@.partition] == live@
            &&& !write_step(s, c, partition, seen).1.stale.contains(live@.partition)
            &&& write_step(s, c, partition, silent) == (s, c)
            &&& read_step(s, c, partition, seen) == write_step(s, c, partition, seen)
            &&& read_step(s, c, partition, silent) == (s, c)
        }),
{
}

/// A route has moved where its partition is led by another node or placed in
/// another epoch; a write looks at the term too. A route of which nothing is
/// known has not moved.
pub proof fn law_moved_routes(route: RouteView, live: AssignmentWire)
    ensures
        !write_moved(route, None) && !read_moved(route, None),
        !read_moved(route, Some(live)) <==> live@.leader == route.leader && live@.placement_epoch
            == route.placement_epoch,
        !write_moved(route, Some(live)) <==> live@.leader == route.leader && live@.placement_epoch
            == route.placement_epoch && live@.term == route.term,
{
}

/// The row of an entry that belongs to a collection and matches.
pub open spec fn matching_row(collection: Seq<char>, filter: FilterView) -> spec_fn(
    ClusterEntry,
) -> Option<(Seq<char>, JsonView)> {
    |e: ClusterEntry|
        if e.subject is Some && (e.subject->0).0@ == collection && e.decoded is Ok
            && filter_matches(filter, e.decoded->Ok_0@) {
            Some(((e.subject->0).1@, e.decoded->Ok_0@))
        } else {
            None
        }
}

/// An entry of a collection is damaged: it does not decode, and not only
/// because its document is of another type.
pub open spec fn damaged(e: ClusterEntry, collection: Seq<char>) -> bool {
    e.subject is Some && (e.subject->0).0@ == collection && e.decoded is Err && !(
    e.decoded->Err_0@ is TypeMismatch)
}

/// A cluster scan keeps the rows of the collection that match, all of them and
/// in their order, and is refused exactly where an entry of the collection is
/// damaged.
pub proof fn law_cluster_scan_keeps_exactly_the_matches(
    entries: Seq<ClusterEntry>,
    collection: Seq<char>,
    filter: FilterView,
)
    ensures
        cluster_matches(entries, collection, filter) is Err <==> exists|i: int|
            0 <= i < entries.len() && damaged(#[trigger] entries[i], collection),
        cluster_matches(entries, collection, filter) is Ok ==> cluster_matches(
            entries,
            collection,
            filter,
        )->Ok_0 == entries.filter_map(matching_row(collection, filter)),
    decreases entries.len(),
{
    if entries.len() > 0 {
        let shorter = entries.drop_last();
        let n = entries.len() - 1;
        law_cluster_scan_keeps_exactly_the_matches(shorter, collection, filter);
        if exists|i: int| 0 <= i < shorter.len() && damaged(#[trigger] shorter[i], collection) {
            let i = choose|i: int|
                0 <= i < shorter.len() && damaged(#[trigger] shorter[i], collection);
            assert(damaged(entries[i], collection));
        }
        if exists|i: int| 0 <= i < entries.len() && damaged(#[trigger] entries[i], collection) {
            let i = choose|i: int|
                0 <= i < entries.len() && damaged(#[trigger] entries[i], collection);
            if i < n {
                assert(damaged(shorter[i], collection));
            }
        }
        assert(entries[n] == entries.last());
        let before = shorter.filter_map(matching_row(collection, filter));
        if matching_row(collection, filter)(entries.last()) is Some {
            let row = matching_row(collection, filter)(entries.last())->0;
            assert(before + seq![row] =~= before.push(row));
        }
    }
}

/// The key of a subject of a collection.
pub open spec fn key_of_subject(collection: Seq<char>) -> spec_fn(
    Option<(String, String)>,
) -> Option<String> {
    |s: Option<(String, String)>|
        if s is Some && (s->0).0@ == collection {
            Some((s->0).1)
        } else {
            None
        }
}

/// The keys of a collection are those of its own subjects.
pub proof fn law_subject_keys_are_those_of_the_collection(
    subjects: Seq<Option<(String, String)>>,
    collection: Seq<char>,
)
    ensures
        own_subject_keys(subjects, collection) == subjects.filter_map(key_of_subject(collection)),
    decreases subjects.len(),
{
    if subjects.len() > 0 {
        let shorter = subjects.drop_last();
        law_subject_keys_are_those_of_the_collection(shorter, collection);
        let before = shorter.filter_map(key_of_subject(collection));
        if key_of_subject(collection)(subjects.last()) is Some {
            let key = key_of_subject(collection)(subjects.last())->0;
            assert(before + seq![key] =~= before.push(key));
        }
    }
}

/// A catalog entry carries a name: as its own, or as an alias.
pub open spec fn carries_name(e: CatalogEntry, name: Seq<char>) -> bool {
    e.name@ == name || exists|k: int| 0 <= k < e.aliases@.len() && (#[trigger] e.aliases@[k])@
        == name
}

proof fn lemma_carries_name(e: CatalogEntry, name: Seq<char>)
    ensures
        crate::heap::goes_by(e, name) <==> carries_name(e, name),
{
    let all = texts(e.aliases@);
    if all.contains(name) {
        let k = choose|k: int| 0 <= k < all.len() && all[k] == name;
        assert(e.aliases@[k]@ == name);
    }
    if exists|k: int| 0 <= k < e.aliases@.len() && (#[trigger] e.aliases@[k])@ == name {
        let k = choose|k: int| 0 <= k < e.aliases@.len() && (#[trigger] e.aliases@[k])@ == name;
        assert(all[k] == name);
    }
}

/// A name leads to the first entry that carries it, as its own name or as an
/// alias, and nowhere where none does.
pub proof fn law_name_leads_to_the_first_entry(entries: Seq<CatalogEntry>, name: Seq<char>)
    ensures
        match first_named(entries, name) {
            Some(i) => {
                &&& 0 <= i < entries.len()
                &&& carries_name(entries[i], name)
                &&& forall|j: int| 0 <= j < i ==> !carries_name(#[trigger] entries[j], name)
            },
            None => forall|j: int|
                0 <= j < entries.len() ==> !carries_name(#[trigger] entries[j], name),
        },
    decreases entries.len(),
{
    if entries.len() > 0 {
        let shorter = entries.drop_last();
        let n = entries.len() - 1;
        law_name_leads_to_the_first_entry(shorter, name);
        lemma_carries_name(entries.last(), name);
        assert forall|j: int| 0 <= j < n implies #[trigger] entries[j] == shorter[j] by {}
        match first_named(shorter, name) {
            Some(i) => {
                assert(carries_name(shorter[i], name));
            },
            None => {
                assert forall|j: int| 0 <= j < n implies !carries_name(
                    #[trigger] entries[j],
                    name,
                ) by {
                    assert(!carries_name(shorter[j], name));
                }
            },
        }
    }
}

/// The listing of an entry that is in use.
pub open spec fn listed_entry(heap_id: [u8; 16]) -> spec_fn(CatalogEntry) -> Option<
    ListedCollectionView,
> {
    |e: CatalogEntry|
        if !e.retired && e.object_id is Ok {
            Some(
                ListedCollectionView {
                    heap_id,
                    collection_id: e.object_id->Ok_0,
                    name: e.name@,
                    descriptor_hash: e.descriptor_hash,
                },
            )
        } else {
            None
        }
}

/// A listing names every entry that is not retired, and no other. It is
/// refused exactly where one of them has no id.
pub proof fn law_listing_names_what_is_in_use(heap_id: [u8; 16], entries: Seq<CatalogEntry>)
    ensures
        active(heap_id, entries) is Err <==> exists|i: int|
            0 <= i < entries.len() && !(#[trigger] entries[i]).retired && entries[i].object_id
                is Err,
        active(heap_id, entries) is Ok ==> active(heap_id, entries)->Ok_0 == entries.filter_map(
            listed_entry(heap_id),
        ),
    decreases entries.len(),
{
    if entries.len() > 0 {
        let shorter = entries.drop_last();
        let n = entries.len() - 1;
        law_listing_names_what_is_in_use(heap_id, shorter);
        if exists|i: int|
            0 <= i < shorter.len() && !(#[trigger] shorter[i]).retired && shorter[i].object_id
                is Err {
            let i = choose|i: int|
                0 <= i < shorter.len() && !(#[trigger] shorter[i]).retired && shorter[i].object_id
                    is Err;
            assert(!entries[i].retired);
        }
        if exists|i: int|
            0 <= i < entries.len() && !(#[trigger] entries[i]).retired && entries[i].object_id
                is Err {
            let i = choose|i: int|
                0 <= i < entries.len() && !(#[trigger] entries[i]).retired && entries[i].object_id
                    is Err;
            if i < n {
                assert(!shorter[i].retired);
            }
        }
        assert(entries[n] == entries.last());
        let before = shorter.filter_map(listed_entry(heap_id));
        if listed_entry(heap_id)(entries.last()) is Some {
            let row = listed_entry(heap_id)(entries.last())->0;
            assert(before + seq![row] =~= before.push(row));
        }
    }
}

} // verus!
