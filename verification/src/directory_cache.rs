//! Client-side partition directory cache.
//!
//! A client caches which node leads each partition and refreshes what it finds
//! stale. A stale route may cost a redirect; it never authorizes a writer.
use crate::codec::{from_le8, read_le8};
use crate::digest::{blake3_digest, hash_bytes};
use std::collections::HashMap;
use vstd::prelude::*;

verus! {

broadcast use vstd::std_specs::hash::group_hash_axioms;

/// Published hash profile name for mapping partition keys to partitions.
pub const HASH_PROFILE_BLAKE3_MOD: &'static str = "blake3-mod-v1";

/// Dense node index within a cluster.
#[derive(Debug, Clone, Copy, PartialEq, Eq, PartialOrd, Ord, Hash, Structural)]
pub struct NodeId(pub u32);

impl NodeId {
    /// The node with that index.
    pub fn new(index: u32) -> (r: NodeId)
        ensures
            r.0 == index,
    {
        NodeId(index)
    }

    /// Dense index used for endpoint maps.
    pub fn index(self) -> (r: u32)
        ensures
            r == self.0,
    {
        self.0
    }
}

/// Virtual partition identifier.
#[derive(Debug, Clone, Copy, PartialEq, Eq, PartialOrd, Ord, Hash, Structural)]
pub struct PartitionId(pub u32);

impl PartitionId {
    /// The partition with that index.
    pub fn new(id: u32) -> (r: PartitionId)
        ensures
            r.0 == id,
    {
        PartitionId(id)
    }

    /// Raw index.
    pub fn get(self) -> (r: u32)
        ensures
            r == self.0,
    {
        self.0
    }
}

/// Leadership term.
#[derive(Debug, Clone, Copy, PartialEq, Eq, PartialOrd, Ord, Hash, Structural)]
pub struct Term(pub u64);

/// Placement generation.
#[derive(Debug, Clone, Copy, PartialEq, Eq, PartialOrd, Ord, Hash, Structural)]
pub struct PlacementEpoch(pub u64);

/// Parameters of the deterministic partition map of one store generation.
#[derive(Debug, Clone, PartialEq, Eq)]
pub struct PartitionMap {
    /// Number of virtual partitions (at least one).
    pub virtual_partitions: u32,
    /// Published hash profile identifier.
    pub hash_profile: String,
}

/// The partition of a key: the first eight digest bytes, little-endian, modulo
/// the number of partitions.
pub open spec fn partition_for(key: Seq<u8>, virtual_partitions: u32) -> int {
    from_le8(blake3_digest(key)) % (virtual_partitions as int)
}

impl PartitionMap {
    /// A map with that many virtual partitions.
    pub fn new(virtual_partitions: u32) -> (r: PartitionMap)
        requires
            virtual_partitions >= 1,
        ensures
            r.virtual_partitions == virtual_partitions,
            r.hash_profile@ == HASH_PROFILE_BLAKE3_MOD@,
    {
        PartitionMap { virtual_partitions, hash_profile: HASH_PROFILE_BLAKE3_MOD.to_string() }
    }

    /// Maps a partition key to a virtual partition.
    pub fn partition_of(&self, partition_key: &[u8]) -> (r: PartitionId)
        requires
            self.virtual_partitions >= 1,
        ensures
            r.0 == partition_for(partition_key@, self.virtual_partitions),
            r.0 < self.virtual_partitions,
    {
        let hash = hash_bytes(partition_key);
        let n: u64 = read_le8(hash.as_slice());
        let id: u32 = (n % (self.virtual_partitions as u64)) as u32;
        PartitionId::new(id)
    }
}

/// One partition route held by a client.
#[derive(Debug, PartialEq, Eq)]
pub struct CachedRoute {
    /// Virtual partition.
    pub partition: PartitionId,
    /// Cached leader for linearizable writes.
    pub leader: NodeId,
    /// Leadership term seen when this entry was cached.
    pub term: Term,
    /// Placement epoch of this assignment.
    pub placement_epoch: PlacementEpoch,
    /// Voting replicas.
    pub replicas: Vec<NodeId>,
}

/// One assignment on the wire.
#[derive(Debug, PartialEq, Eq)]
pub struct AssignmentWire {
    /// Partition index.
    pub partition: u32,
    /// Replica node indexes.
    pub replicas: Vec<u32>,
    /// Leader node index.
    pub leader: u32,
    /// Leadership term.
    pub term: u64,
    /// Placement epoch of this assignment.
    pub placement_epoch: u64,
}

/// Model of an assignment: where a partition is and who leads it.
#[verifier::ext_equal]
pub struct RouteView {
    pub partition: u32,
    pub leader: u32,
    pub term: u64,
    pub placement_epoch: u64,
    pub replicas: Seq<u32>,
}

impl View for CachedRoute {
    type V = RouteView;

    open spec fn view(&self) -> RouteView {
        RouteView {
            partition: self.partition.0,
            leader: self.leader.0,
            term: self.term.0,
            placement_epoch: self.placement_epoch.0,
            replicas: Seq::new(self.replicas@.len(), |i: int| self.replicas@[i].0),
        }
    }
}

impl View for AssignmentWire {
    type V = RouteView;

    open spec fn view(&self) -> RouteView {
        RouteView {
            partition: self.partition,
            leader: self.leader,
            term: self.term,
            placement_epoch: self.placement_epoch,
            replicas: self.replicas@,
        }
    }
}

impl Clone for CachedRoute {
    fn clone(&self) -> (r: CachedRoute)
        ensures
            r@ == self@,
    {
        let mut replicas: Vec<NodeId> = Vec::new();
        for i in 0..self.replicas.len()
            invariant
                replicas@.len() == i,
                forall|k: int| 0 <= k < i ==> replicas@[k] == self.replicas@[k],
        {
            replicas.push(self.replicas[i]);
        }
        let r = CachedRoute {
            partition: self.partition,
            leader: self.leader,
            term: self.term,
            placement_epoch: self.placement_epoch,
            replicas,
        };
        proof {
            assert(r@.replicas =~= self@.replicas);
        }
        r
    }
}

impl Clone for AssignmentWire {
    fn clone(&self) -> (r: AssignmentWire)
        ensures
            r@ == self@,
    {
        AssignmentWire {
            partition: self.partition,
            replicas: self.replicas.clone(),
            leader: self.leader,
            term: self.term,
            placement_epoch: self.placement_epoch,
        }
    }
}

impl CachedRoute {
    fn from_wire(a: &AssignmentWire) -> (r: CachedRoute)
        ensures
            r@ == a@,
    {
        let mut replicas: Vec<NodeId> = Vec::new();
        for i in 0..a.replicas.len()
            invariant
                replicas@.len() == i,
                forall|k: int| 0 <= k < i ==> replicas@[k].0 == a.replicas@[k],
        {
            replicas.push(NodeId::new(a.replicas[i]));
        }
        let r = CachedRoute {
            partition: PartitionId::new(a.partition),
            leader: NodeId::new(a.leader),
            term: Term(a.term),
            placement_epoch: PlacementEpoch(a.placement_epoch),
            replicas,
        };
        proof {
            assert(r@.replicas =~= a@.replicas);
        }
        r
    }

    fn to_wire(&self) -> (r: AssignmentWire)
        ensures
            r@ == self@,
    {
        let mut replicas: Vec<u32> = Vec::new();
        for i in 0..self.replicas.len()
            invariant
                replicas@.len() == i,
                forall|k: int| 0 <= k < i ==> replicas@[k] == self.replicas@[k].0,
        {
            replicas.push(self.replicas[i].index());
        }
        let r = AssignmentWire {
            partition: self.partition.get(),
            replicas,
            leader: self.leader.index(),
            term: self.term.0,
            placement_epoch: self.placement_epoch.0,
        };
        proof {
            assert(r@.replicas =~= self@.replicas);
        }
        r
    }
}

/// Directory snapshot as it travels.
#[derive(Debug, PartialEq, Eq)]
pub struct DirectorySnapshot {
    /// Virtual partition count.
    pub virtual_partitions: u32,
    /// Published hash profile name.
    pub hash_profile: String,
    /// Whole-directory placement epoch.
    pub placement_epoch: u64,
    /// Per-partition assignments.
    pub assignments: Vec<AssignmentWire>,
    /// Node id to `host:port` endpoints for direct routing.
    pub endpoints: HashMap<u32, String>,
}

/// The models of a list of assignments.
pub open spec fn assignment_models(v: Seq<AssignmentWire>) -> Seq<RouteView> {
    Seq::new(v.len(), |i: int| v[i]@)
}

/// Model of a [`DirectorySnapshot`].
#[verifier::ext_equal]
pub struct DirectoryView {
    pub virtual_partitions: u32,
    pub hash_profile: Seq<char>,
    pub placement_epoch: u64,
    pub assignments: Seq<RouteView>,
    pub endpoints: Map<u32, Seq<char>>,
}

impl View for DirectorySnapshot {
    type V = DirectoryView;

    open spec fn view(&self) -> DirectoryView {
        DirectoryView {
            virtual_partitions: self.virtual_partitions,
            hash_profile: self.hash_profile@,
            placement_epoch: self.placement_epoch,
            assignments: assignment_models(self.assignments@),
            endpoints: self.endpoints@.map_values(|s: String| s@),
        }
    }
}

/// The routes that assignments make, taken in order: the last one for a
/// partition stays.
pub open spec fn routes_of(assignments: Seq<RouteView>) -> Map<u32, RouteView>
    decreases assignments.len(),
{
    if assignments.len() == 0 {
        Map::empty()
    } else {
        routes_of(assignments.drop_last()).insert(assignments.last().partition, assignments.last())
    }
}

/// Model of a [`ClientDirectoryCache`].
#[verifier::ext_equal]
pub struct CacheView {
    pub virtual_partitions: u32,
    pub hash_profile: Seq<char>,
    pub placement_epoch: u64,
    pub routes: Map<u32, RouteView>,
    pub endpoints: Map<u32, Seq<char>>,
    pub stale: Set<u32>,
    pub refresh_count: u64,
    pub entry_refresh_count: u64,
}

/// Client cache of partition routes.
#[derive(Debug)]
pub struct ClientDirectoryCache {
    map: PartitionMap,
    placement_epoch: PlacementEpoch,
    routes: HashMap<u32, CachedRoute>,
    endpoints: HashMap<u32, String>,
    stale: HashMap<u32, bool>,
    refresh_count: u64,
    entry_refresh_count: u64,
}

impl View for ClientDirectoryCache {
    type V = CacheView;

    closed spec fn view(&self) -> CacheView {
        CacheView {
            virtual_partitions: self.map.virtual_partitions,
            hash_profile: self.map.hash_profile@,
            placement_epoch: self.placement_epoch.0,
            routes: self.routes@.map_values(|r: CachedRoute| r@),
            endpoints: self.endpoints@.map_values(|s: String| s@),
            stale: Set::new(|p: u32| self.stale@.contains_key(p) && self.stale@[p]),
            refresh_count: self.refresh_count,
            entry_refresh_count: self.entry_refresh_count,
        }
    }
}

/// One more, up to the largest 64-bit number.
pub open spec fn counted(n: u64) -> u64 {
    if n < u64::MAX {
        (n + 1) as u64
    } else {
        n
    }
}

/// A cache after taking a whole snapshot.
pub open spec fn replaced(c: CacheView, s: DirectoryView) -> CacheView {
    CacheView {
        virtual_partitions: if s.virtual_partitions == 0 {
            1
        } else {
            s.virtual_partitions
        },
        hash_profile: s.hash_profile,
        placement_epoch: s.placement_epoch,
        routes: routes_of(s.assignments),
        endpoints: s.endpoints,
        stale: Set::empty(),
        refresh_count: counted(c.refresh_count),
        entry_refresh_count: c.entry_refresh_count,
    }
}

/// A cache after taking one assignment.
pub open spec fn entry_refreshed(c: CacheView, a: RouteView) -> CacheView {
    CacheView {
        routes: c.routes.insert(a.partition, a),
        stale: c.stale.remove(a.partition),
        placement_epoch: if a.placement_epoch > c.placement_epoch {
            a.placement_epoch
        } else {
            c.placement_epoch
        },
        entry_refresh_count: counted(c.entry_refresh_count),
        ..c
    }
}

/// A cache that knows nothing.
pub open spec fn empty_cache() -> CacheView {
    CacheView {
        virtual_partitions: 1,
        hash_profile: HASH_PROFILE_BLAKE3_MOD@,
        placement_epoch: 0,
        routes: Map::empty(),
        endpoints: Map::empty(),
        stale: Set::empty(),
        refresh_count: 0,
        entry_refresh_count: 0,
    }
}

/// The route of a key, whether or not it is marked stale.
pub open spec fn route_for(c: CacheView, key: Seq<u8>) -> Option<RouteView> {
    let p = partition_for(key, c.virtual_partitions) as u32;
    if c.routes.contains_key(p) {
        Some(c.routes[p])
    } else {
        None
    }
}

/// A snapshot shows a cache: every route once, by ascending partition, and
/// everything else as it is.
pub open spec fn shows(s: DirectoryView, c: CacheView) -> bool {
    &&& s.virtual_partitions == c.virtual_partitions
    &&& s.hash_profile == c.hash_profile
    &&& s.placement_epoch == c.placement_epoch
    &&& s.endpoints == c.endpoints
    &&& forall|i: int, j: int|
        0 <= i < j < s.assignments.len() ==> (#[trigger] s.assignments[i]).partition < (
        #[trigger] s.assignments[j]).partition
    &&& forall|i: int|
        0 <= i < s.assignments.len() ==> c.routes.contains_key(
            (#[trigger] s.assignments[i]).partition,
        ) && c.routes[s.assignments[i].partition] == s.assignments[i]
    &&& forall|p: u32| #[trigger]
        c.routes.contains_key(p) ==> exists|i: int|
            0 <= i < s.assignments.len() && (#[trigger] s.assignments[i]).partition == p
}

impl ClientDirectoryCache {
    #[verifier::type_invariant]
    spec fn well_formed(self) -> bool {
        &&& self.map.virtual_partitions >= 1
        &&& forall|p: u32| #[trigger]
            self.routes@.contains_key(p) ==> self.routes@[p].partition.0 == p
    }

    /// Empty cache; it routes nothing until a snapshot is taken.
    pub fn empty() -> (r: ClientDirectoryCache)
        ensures
            r@ == empty_cache(),
    {
        let r = ClientDirectoryCache {
            map: PartitionMap::new(1),
            placement_epoch: PlacementEpoch(0),
            routes: HashMap::new(),
            endpoints: HashMap::new(),
            stale: HashMap::new(),
            refresh_count: 0,
            entry_refresh_count: 0,
        };
        proof {
            assert(r@.routes =~= empty_cache().routes);
            assert(r@.endpoints =~= empty_cache().endpoints);
            assert(r@.stale =~= empty_cache().stale);
        }
        r
    }

    /// Builds a cache from a snapshot.
    pub fn from_snapshot(snap: &DirectorySnapshot) -> (r: ClientDirectoryCache)
        ensures
            r@ == replaced(empty_cache(), snap@),
    {
        let mut cache = ClientDirectoryCache::empty();
        cache.replace_from_snapshot(snap);
        cache
    }

    /// Replaces the whole cache from a snapshot.
    pub fn replace_from_snapshot(&mut self, snap: &DirectorySnapshot)
        ensures
            final(self)@ == replaced(old(self)@, snap@),
    {
        let mut routes: HashMap<u32, CachedRoute> = HashMap::new();
        let ghost all = assignment_models(snap.assignments@);
        let mut i: usize = 0;
        proof {
            assert(all.take(0) =~= Seq::<RouteView>::empty());
            assert(routes@.map_values(|r: CachedRoute| r@) =~= Map::<u32, RouteView>::empty());
        }
        while i < snap.assignments.len()
            invariant
                all == assignment_models(snap.assignments@),
                i <= snap.assignments@.len(),
                routes@.map_values(|r: CachedRoute| r@) == routes_of(all.take(i as int)),
                forall|p: u32| #[trigger]
                    routes@.contains_key(p) ==> routes@[p].partition.0 == p,
            decreases snap.assignments@.len() - i,
        {
            proof {
                assert(all.take(i + 1).drop_last() =~= all.take(i as int));
                assert(all.take(i + 1).last() == snap.assignments@[i as int]@);
            }
            let ghost before = routes@;
            let a = &snap.assignments[i];
            let route = CachedRoute::from_wire(a);
            routes.insert(a.partition, route);
            proof {
                assert(routes@ == before.insert(a.partition, route));
                assert(routes@.map_values(|r: CachedRoute| r@) =~= before.map_values(
                    |r: CachedRoute| r@,
                ).insert(a.partition, route@));
            }
            i = i + 1;
        }
        proof {
            assert(all.take(all.len() as int) =~= all);
        }
        let vp: u32 = if snap.virtual_partitions == 0 {
            1
        } else {
            snap.virtual_partitions
        };
        let refresh_count: u64 = self.refresh_count.saturating_add(1);
        *self =
        ClientDirectoryCache {
            map: PartitionMap { virtual_partitions: vp, hash_profile: snap.hash_profile.clone() },
            placement_epoch: PlacementEpoch(snap.placement_epoch),
            routes,
            endpoints: snap.endpoints.clone(),
            stale: HashMap::new(),
            refresh_count,
            entry_refresh_count: self.entry_refresh_count,
        };
        proof {
            assert(self@ =~= replaced(old(self)@, snap@));
        }
    }

    /// Refreshes a single partition assignment.
    pub fn refresh_entry_wire(&mut self, assignment: &AssignmentWire)
        ensures
            final(self)@ == entry_refreshed(old(self)@, assignment@),
    {
        proof {
            use_type_invariant(&*self);
        }
        let mut routes: HashMap<u32, CachedRoute> = HashMap::new();
        std::mem::swap(&mut self.routes, &mut routes);
        let ghost before = routes@;
        let route = CachedRoute::from_wire(assignment);
        routes.insert(assignment.partition, route);
        std::mem::swap(&mut self.routes, &mut routes);
        let mut stale: HashMap<u32, bool> = HashMap::new();
        std::mem::swap(&mut self.stale, &mut stale);
        stale.remove(&assignment.partition);
        std::mem::swap(&mut self.stale, &mut stale);
        if assignment.placement_epoch > self.placement_epoch.0 {
            self.placement_epoch = PlacementEpoch(assignment.placement_epoch);
        }
        self.entry_refresh_count = self.entry_refresh_count.saturating_add(1);
        proof {
            assert(self.routes@ == before.insert(assignment.partition, route));
            assert(self@.routes =~= old(self)@.routes.insert(assignment@.partition, assignment@));
            assert(self@.stale =~= old(self)@.stale.remove(assignment@.partition));
        }
    }

    /// Marks a partition route stale until its next refresh.
    pub fn mark_stale(&mut self, partition: PartitionId)
        ensures
            final(self)@ == (CacheView {
                stale: old(self)@.stale.insert(partition.0),
                ..old(self)@
            }),
    {
        proof {
            use_type_invariant(&*self);
        }
        let mut stale: HashMap<u32, bool> = HashMap::new();
        std::mem::swap(&mut self.stale, &mut stale);
        stale.insert(partition.get(), true);
        std::mem::swap(&mut self.stale, &mut stale);
        proof {
            assert(self@.stale =~= old(self)@.stale.insert(partition.0));
        }
    }

    /// Sets the cached leader of a known partition, epoch unchanged.
    pub fn poison_leader(&mut self, partition: PartitionId, fake_leader: NodeId)
        ensures
            final(self)@ == (CacheView {
                routes: if old(self)@.routes.contains_key(partition.0) {
                    old(self)@.routes.insert(
                        partition.0,
                        RouteView { leader: fake_leader.0, ..old(self)@.routes[partition.0] },
                    )
                } else {
                    old(self)@.routes
                },
                ..old(self)@
            }),
    {
        proof {
            use_type_invariant(&*self);
        }
        let mut routes: HashMap<u32, CachedRoute> = HashMap::new();
        std::mem::swap(&mut self.routes, &mut routes);
        let ghost before = routes@;
        match routes.remove(&partition.get()) {
            Some(r) => {
                let mut route = r;
                route.leader = fake_leader;
                routes.insert(partition.get(), route);
                proof {
                    assert(routes@ =~= before.insert(partition.0, route));
                }
            },
            None => {
                proof {
                    assert(routes@ =~= before);
                }
            },
        }
        std::mem::swap(&mut self.routes, &mut routes);
        proof {
            assert(self@.routes =~= (if old(self)@.routes.contains_key(partition.0) {
                old(self)@.routes.insert(
                    partition.0,
                    RouteView { leader: fake_leader.0, ..old(self)@.routes[partition.0] },
                )
            } else {
                old(self)@.routes
            }));
        }
    }

    /// Partition map used for hashing.
    pub fn partition_map(&self) -> (r: &PartitionMap)
        ensures
            r.virtual_partitions == self@.virtual_partitions,
            r.hash_profile@ == self@.hash_profile,
            r.virtual_partitions >= 1,
    {
        proof {
            use_type_invariant(self);
        }
        &self.map
    }

    /// Whole-directory placement epoch.
    pub fn placement_epoch(&self) -> (r: PlacementEpoch)
        ensures
            r.0 == self@.placement_epoch,
    {
        self.placement_epoch
    }

    /// Number of whole-directory refreshes applied.
    pub fn refresh_count(&self) -> (r: u64)
        ensures
            r == self@.refresh_count,
    {
        self.refresh_count
    }

    /// Number of single-entry refreshes applied.
    pub fn entry_refresh_count(&self) -> (r: u64)
        ensures
            r == self@.entry_refresh_count,
    {
        self.entry_refresh_count
    }

    /// Endpoint of a node, if known.
    pub fn endpoint(&self, node: NodeId) -> (r: Option<&str>)
        ensures
            match r {
                Some(s) => self@.endpoints.contains_key(node.0) && self@.endpoints[node.0] == s@,
                None => !self@.endpoints.contains_key(node.0),
            },
    {
        match self.endpoints.get(&node.index()) {
            Some(s) => Some(s.as_str()),
            None => None,
        }
    }

    /// All known endpoints.
    pub fn endpoints(&self) -> (r: &HashMap<u32, String>)
        ensures
            r@.map_values(|s: String| s@) == self@.endpoints,
    {
        &self.endpoints
    }

    /// Number of routes held.
    pub fn route_count(&self) -> (r: usize)
        ensures
            r == self@.routes.len(),
    {
        proof {
            assert(self@.routes.dom() =~= self.routes@.dom());
        }
        self.routes.len()
    }

    /// Maps subject bytes to a virtual partition.
    pub fn partition_of(&self, partition_key: &[u8]) -> (r: PartitionId)
        ensures
            r.0 == partition_for(partition_key@, self@.virtual_partitions),
            r.0 < self@.virtual_partitions,
    {
        proof {
            use_type_invariant(self);
        }
        self.map.partition_of(partition_key)
    }

    /// The cached route of a partition, stale or not.
    pub fn get(&self, partition: PartitionId) -> (r: Option<&CachedRoute>)
        ensures
            match r {
                Some(route) => self@.routes.contains_key(partition.0) && self@.routes[partition.0]
                    == route@ && route@.partition == partition.0,
                None => !self@.routes.contains_key(partition.0),
            },
    {
        proof {
            use_type_invariant(self);
        }
        self.routes.get(&partition.get())
    }

    /// Whether a partition is marked stale.
    pub fn is_stale(&self, partition: PartitionId) -> (r: bool)
        ensures
            r == self@.stale.contains(partition.0),
    {
        match self.stale.get(&partition.get()) {
            Some(b) => *b,
            None => false,
        }
    }

    /// Routes a key to a cached leader; `None` when its partition is unknown or
    /// marked stale.
    pub fn route_checked(&self, partition_key: &[u8]) -> (r: Option<&CachedRoute>)
        ensures
            match r {
                Some(route) => route_for(self@, partition_key@) == Some(route@)
                    && route@.partition == partition_for(
                    partition_key@,
                    self@.virtual_partitions,
                ) && !self@.stale.contains(
                    partition_for(partition_key@, self@.virtual_partitions) as u32,
                ),
                None => route_for(self@, partition_key@) is None || self@.stale.contains(
                    partition_for(partition_key@, self@.virtual_partitions) as u32,
                ),
            },
    {
        proof {
            use_type_invariant(self);
        }
        let p = self.partition_of(partition_key);
        if self.is_stale(p) {
            return None;
        }
        self.get(p)
    }

    /// Routes a key without the staleness gate.
    pub fn route(&self, partition_key: &[u8]) -> (r: Option<&CachedRoute>)
        ensures
            match r {
                Some(route) => route_for(self@, partition_key@) == Some(route@)
                    && route@.partition == partition_for(
                    partition_key@,
                    self@.virtual_partitions,
                ),
                None => route_for(self@, partition_key@) is None,
            },
    {
        let p = self.partition_of(partition_key);
        self.get(p)
    }

    /// Whether `observed` is strictly newer than the cached epoch of a partition
    /// (of the directory, where the partition is unknown).
    pub fn is_observed_epoch_newer(&self, partition: PartitionId, observed: PlacementEpoch) -> (r:
        bool)
        ensures
            r == (observed.0 > (if self@.routes.contains_key(partition.0) {
                self@.routes[partition.0].placement_epoch
            } else {
                self@.placement_epoch
            })),
    {
        let cached = match self.get(partition) {
            Some(r) => r.placement_epoch,
            None => self.placement_epoch,
        };
        observed.0 > cached.0
    }

    /// Snapshot for the wire.
    pub fn snapshot(&self) -> (r: DirectorySnapshot)
        ensures
            shows(r@, self@),
    {
        proof {
            use_type_invariant(self);
        }
        let mut keys: Vec<u32> = Vec::new();
        for k in it: self.routes.keys()
            invariant
                it.seq().unref().to_set() == self.routes@.dom(),
                it.seq().no_duplicates(),
                ascending(keys@),
                forall|p: u32| #[trigger]
                    keys@.contains(p) <==> exists|j: int|
                        0 <= j < it.index() && *(#[trigger] it.seq()[j]) == p,
        {
            proof {
                let at = it.index();
                assert(*it.seq()[at] == *k);
                if keys@.contains(*k) {
                    let j = choose|j: int| 0 <= j < at && *(#[trigger] it.seq()[j]) == *k;
                    assert(it.seq()[j] == it.seq()[at]);
                }
            }
            let ghost before = keys@;
            insert_ascending(&mut keys, *k);
            proof {
                let at = it.index();
                assert forall|p: u32| #[trigger] keys@.contains(p) <==> exists|j: int|
                    0 <= j < at + 1 && *(#[trigger] it.seq()[j]) == p by {
                    if keys@.contains(p) && p != *k {
                        assert(before.contains(p));
                    }
                    if p == *k {
                        assert(*it.seq()[at] == p);
                    }
                }
            }
        }
        proof {
            let seen = vstd::std_specs::iter::IteratorSpec::remaining(&self.routes.keys());
            assert forall|p: u32| #[trigger] keys@.contains(p) <==> self.routes@.contains_key(p) by {
                assert(seen.unref().to_set().contains(p) <==> self.routes@.dom().contains(p));
                if self.routes@.contains_key(p) {
                    let j = choose|j: int|
                        0 <= j < seen.unref().len() && seen.unref()[j] == p;
                    assert(*seen[j] == p);
                }
                if keys@.contains(p) {
                    let j = choose|j: int| 0 <= j < seen.len() && *(#[trigger] seen[j]) == p;
                    assert(seen.unref()[j] == p);
                }
            }
        }
        let mut assignments: Vec<AssignmentWire> = Vec::new();
        let mut i: usize = 0;
        while i < keys.len()
            invariant
                i <= keys@.len(),
                assignments@.len() == i,
                forall|p: u32| #[trigger]
                    self.routes@.contains_key(p) ==> self.routes@[p].partition.0 == p,
                forall|p: u32| #[trigger] keys@.contains(p) <==> self.routes@.contains_key(p),
                forall|k: int|
                    0 <= k < i ==> (#[trigger] assignments@[k])@ == self.routes@[keys@[k]]@,
            decreases keys@.len() - i,
        {
            let key = keys[i];
            proof {
                assert(keys@.contains(key));
            }
            match self.routes.get(&key) {
                Some(r) => {
                    assignments.push(r.to_wire());
                },
                None => {},
            }
            i = i + 1;
        }
        let snap = DirectorySnapshot {
            virtual_partitions: self.map.virtual_partitions,
            hash_profile: self.map.hash_profile.clone(),
            placement_epoch: self.placement_epoch.0,
            assignments,
            endpoints: self.endpoints.clone(),
        };
        proof {
            let s = snap@;
            let c = self@;
            assert forall|k: int| 0 <= k < s.assignments.len() implies c.routes.contains_key(
                (#[trigger] s.assignments[k]).partition,
            ) && c.routes[s.assignments[k].partition] == s.assignments[k]
                && s.assignments[k].partition == keys@[k] by {
                assert(keys@.contains(keys@[k]));
            }
            assert forall|p: u32| #[trigger] c.routes.contains_key(p) implies exists|i: int|
                0 <= i < s.assignments.len() && (#[trigger] s.assignments[i]).partition == p by {
                assert(self.routes@.contains_key(p));
                assert(keys@.contains(p));
                let i = choose|i: int| 0 <= i < keys@.len() && keys@[i] == p;
                assert(s.assignments[i].partition == p);
            }
        }
        snap
    }
}

/// Strictly ascending.
pub open spec fn ascending(v: Seq<u32>) -> bool {
    forall|i: int, j: int| 0 <= i < j < v.len() ==> v[i] < v[j]
}

/// Puts a new number at its place in an ascending list.
fn insert_ascending(v: &mut Vec<u32>, k: u32)
    requires
        ascending(old(v)@),
        !old(v)@.contains(k),
    ensures
        ascending(final(v)@),
        forall|p: u32| #[trigger] final(v)@.contains(p) <==> old(v)@.contains(p) || p == k,
{
    let ghost before = v@;
    let mut at: usize = 0;
    while at < v.len() && v[at] < k
        invariant
            v@ == before,
            at <= v@.len(),
            ascending(before),
            forall|i: int| 0 <= i < at ==> before[i] < k,
        decreases v@.len() - at,
    {
        at = at + 1;
    }
    v.insert(at, k);
    proof {
        assert(v@ == before.insert(at as int, k));
        assert forall|p: u32| #[trigger] v@.contains(p) <==> before.contains(p) || p == k by {
            if before.contains(p) {
                let i = choose|i: int| 0 <= i < before.len() && before[i] == p;
                if i < at {
                    assert(v@[i] == p);
                } else {
                    assert(v@[i + 1] == p);
                }
            }
            if p == k {
                assert(v@[at as int] == k);
            }
            if v@.contains(p) {
                let i = choose|i: int| 0 <= i < v@.len() && v@[i] == p;
                if i < at {
                    assert(before[i] == p);
                } else if i > at {
                    assert(before[i - 1] == p);
                }
            }
        }
        if at < before.len() {
            assert(before.contains(before[at as int]));
        }
    }
}

/// Taking a snapshot of a cache and building a cache from it gives the same
/// partition map, epoch, routes and endpoints, with nothing stale.
pub proof fn law_snapshot_round_trip(c: CacheView, s: DirectoryView)
    requires
        shows(s, c),
        c.virtual_partitions >= 1,
    ensures
        replaced(empty_cache(), s) == (CacheView {
            stale: Set::empty(),
            refresh_count: 1,
            entry_refresh_count: 0,
            ..c
        }),
{
    lemma_routes_of(s.assignments);
    let back = routes_of(s.assignments);
    assert forall|p: u32| #[trigger] back.contains_key(p) <==> c.routes.contains_key(p) by {
        if c.routes.contains_key(p) {
            let i = choose|i: int|
                0 <= i < s.assignments.len() && (#[trigger] s.assignments[i]).partition == p;
            assert(back.contains_key(s.assignments[i].partition));
        }
    }
    assert forall|p: u32| back.contains_key(p) implies #[trigger] back[p] == c.routes[p] by {
        let i = choose|i: int|
            0 <= i < s.assignments.len() && (#[trigger] s.assignments[i]).partition == p;
        assert(back[s.assignments[i].partition] == s.assignments[i]);
    }
    assert(back =~= c.routes);
}

/// With no two assignments for one partition, each one is the route of its
/// partition and there is no other route.
proof fn lemma_routes_of(a: Seq<RouteView>)
    requires
        forall|i: int, j: int|
            0 <= i < j < a.len() ==> (#[trigger] a[i]).partition < (#[trigger] a[j]).partition,
    ensures
        forall|i: int|
            0 <= i < a.len() ==> routes_of(a).contains_key((#[trigger] a[i]).partition)
                && routes_of(a)[a[i].partition] == a[i],
        forall|p: u32| #[trigger]
            routes_of(a).contains_key(p) ==> exists|i: int|
                0 <= i < a.len() && (#[trigger] a[i]).partition == p,
    decreases a.len(),
{
    if a.len() > 0 {
        let init = a.drop_last();
        lemma_routes_of(init);
        assert forall|i: int| 0 <= i < a.len() implies routes_of(a).contains_key(
            (#[trigger] a[i]).partition,
        ) && routes_of(a)[a[i].partition] == a[i] by {
            if i < init.len() {
                assert(init[i] == a[i]);
                assert(a[i].partition < a[a.len() - 1].partition);
            }
        }
        assert forall|p: u32| #[trigger] routes_of(a).contains_key(p) implies exists|i: int|
            0 <= i < a.len() && (#[trigger] a[i]).partition == p by {
            if routes_of(init).contains_key(p) {
                let i = choose|i: int| 0 <= i < init.len() && (#[trigger] init[i]).partition == p;
                assert(a[i].partition == p);
            } else {
                assert(a[a.len() - 1].partition == p);
            }
        }
    }
}

/// A partition marked stale routes nothing until it is refreshed, and routes
/// again afterwards.
pub proof fn law_stale_until_refreshed(c: CacheView, key: Seq<u8>, a: RouteView)
    requires
        a.partition == partition_for(key, c.virtual_partitions),
    ensures
        !entry_refreshed(
            CacheView { stale: c.stale.insert(a.partition), ..c },
            a,
        ).stale.contains(a.partition),
        route_for(
            entry_refreshed(CacheView { stale: c.stale.insert(a.partition), ..c }, a),
            key,
        ) == Some(a),
{
}

} // verus!
