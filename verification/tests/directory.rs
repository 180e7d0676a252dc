//! Routes of a cluster: the directory cache and the attempts of an operation.
use residiuum_sdk::cluster_backend::{
    collection_keys, collection_names, map_cluster, scan_limit, shown_store_id, subject_str,
    Attempt, ClusterError, RouteLoop, RouteStep, MAX_ROUTE_RETRIES,
};
use residiuum_sdk::directory_cache::{
    AssignmentWire, ClientDirectoryCache, DirectorySnapshot, NodeId, PartitionId,
    HASH_PROFILE_BLAKE3_MOD,
};
use residiuum_sdk::error::{Error, ErrorCode};
use std::collections::HashMap;

fn assignment(p: u32, node_count: u32, epoch: u64) -> AssignmentWire {
    AssignmentWire {
        partition: p,
        replicas: (0..node_count).collect(),
        leader: p % node_count,
        term: 1,
        placement_epoch: epoch,
    }
}

fn balanced_snapshot(virtual_partitions: u32, node_count: u32, epoch: u64) -> DirectorySnapshot {
    assert!(node_count >= 1);
    DirectorySnapshot {
        virtual_partitions,
        hash_profile: HASH_PROFILE_BLAKE3_MOD.to_string(),
        placement_epoch: epoch,
        assignments: (0..virtual_partitions).map(|p| assignment(p, node_count, epoch)).collect(),
        endpoints: HashMap::new(),
    }
}

#[test]
fn route_is_stable_for_subject() {
    let snap = balanced_snapshot(8, 3, 1);
    let cache = ClientDirectoryCache::from_snapshot(&snap);
    let a = cache.route(b"users/alice").unwrap().clone();
    let b = cache.route(b"users/alice").unwrap().clone();
    assert_eq!(a, b);
    assert_eq!(a.partition, cache.partition_of(b"users/alice"));
}

#[test]
fn stale_gate_hides_route_until_refresh() {
    let snap = balanced_snapshot(4, 2, 1);
    let mut cache = ClientDirectoryCache::from_snapshot(&snap);
    let p = cache.partition_of(b"k");
    cache.mark_stale(p);
    assert!(cache.route_checked(b"k").is_none());
    let assignment = snap.assignments.iter().find(|a| a.partition == p.get()).unwrap();
    cache.refresh_entry_wire(assignment);
    assert!(cache.route_checked(b"k").is_some());
    assert_eq!(cache.entry_refresh_count(), 1);
}

#[test]
fn snapshot_roundtrip() {
    let mut snap = balanced_snapshot(4, 2, 3);
    snap.endpoints.insert(0, "127.0.0.1:7400".into());
    snap.endpoints.insert(1, "127.0.0.1:7401".into());
    let cache = ClientDirectoryCache::from_snapshot(&snap);
    assert_eq!(cache.placement_epoch().0, 3);
    assert_eq!(cache.endpoint(NodeId::new(0)), Some("127.0.0.1:7400"));
    assert_eq!(cache.route_count(), 4);
}

#[test]
fn partitions_follow_the_digest() {
    let cache = ClientDirectoryCache::from_snapshot(&balanced_snapshot(8, 3, 1));
    for key in [&b"a"[..], b"users/alice", b""] {
        let digest = blake3::hash(key);
        let n = u64::from_le_bytes(digest.as_bytes()[..8].try_into().unwrap());
        assert_eq!(cache.partition_of(key).get() as u64, n % 8);
    }
}

/// A cluster with one live leader per partition, for the attempts to run
/// against.
struct Nodes {
    live: Vec<AssignmentWire>,
    stored: HashMap<Vec<u8>, i64>,
}

impl Nodes {
    fn new(partitions: u32) -> Nodes {
        Nodes {
            live: (0..partitions).map(|p| assignment(p, 3, 1)).collect(),
            stored: HashMap::new(),
        }
    }

    fn assignment_of(&self, p: PartitionId) -> Option<AssignmentWire> {
        let a = self.live.iter().find(|a| a.partition == p.get())?;
        Some(AssignmentWire {
            partition: a.partition,
            replicas: a.replicas.clone(),
            leader: a.leader,
            term: a.term,
            placement_epoch: a.placement_epoch,
        })
    }

    fn snapshot(&self) -> DirectorySnapshot {
        balanced_snapshot(self.live.len() as u32, 3, 1)
    }

    fn put(&mut self, cache: &mut ClientDirectoryCache, key: &[u8], value: i64) -> Result<(), Error> {
        let mut attempts = RouteLoop::start();
        loop {
            match attempts.begin(cache, key) {
                Attempt::GiveUp => return Err(attempts.give_up("cluster put failed")),
                Attempt::Refresh => {
                    cache.replace_from_snapshot(&self.snapshot());
                    if !attempts.refreshed(cache, key) {
                        continue;
                    }
                }
                Attempt::Route => {}
            }
            let route = attempts.write_route(cache, key)?;
            let live = self.assignment_of(route.partition);
            if !attempts.check_write(cache, &route, &live) {
                continue;
            }
            self.stored.insert(key.to_vec(), value);
            let seen = self.assignment_of(route.partition);
            match attempts.take_write(cache, &route, Ok(((), seen))) {
                RouteStep::Done(()) => return Ok(()),
                RouteStep::Fail(e) => return Err(e),
                RouteStep::Again | RouteStep::AnyReplica => {}
            }
        }
    }

    fn get(&self, cache: &mut ClientDirectoryCache, key: &[u8]) -> Result<Option<i64>, Error> {
        let mut attempts = RouteLoop::start();
        loop {
            match attempts.begin(cache, key) {
                Attempt::GiveUp => return Err(attempts.give_up("cluster get failed")),
                Attempt::Refresh => {
                    cache.replace_from_snapshot(&self.snapshot());
                    if !attempts.refreshed(cache, key) {
                        continue;
                    }
                }
                Attempt::Route => {}
            }
            let Some(route) = attempts.read_route(cache, key) else {
                continue;
            };
            let live = self.assignment_of(route.partition);
            if !attempts.check_read(cache, &route, &live) {
                continue;
            }
            let found = self.stored.get(key).copied();
            match attempts.take_read(cache, &route, Ok((found, None))) {
                RouteStep::Done(v) => return Ok(v),
                RouteStep::Fail(e) => return Err(e),
                RouteStep::Again | RouteStep::AnyReplica => {}
            }
        }
    }
}

#[test]
fn open_cluster_put_get_via_cache() {
    let mut nodes = Nodes::new(8);
    let mut cache = ClientDirectoryCache::from_snapshot(&nodes.snapshot());
    assert!(cache.refresh_count() >= 1);
    nodes.put(&mut cache, b"users/alice", 1).unwrap();
    let v = nodes.get(&mut cache, b"users/alice").unwrap().unwrap();
    assert_eq!(v, 1);
}

#[test]
fn poisoned_route_refreshes_and_succeeds() {
    let mut nodes = Nodes::new(8);
    let mut cache = ClientDirectoryCache::from_snapshot(&nodes.snapshot());
    nodes.put(&mut cache, b"t/k", 1).unwrap();
    let p = cache.partition_of(b"t/k2");
    let before = cache.entry_refresh_count();
    cache.poison_leader(p, NodeId::new(99));
    nodes.put(&mut cache, b"t/k2", 2).unwrap();
    assert!(cache.entry_refresh_count() > before);
    assert_eq!(nodes.get(&mut cache, b"t/k2").unwrap().unwrap(), 2);
}

#[test]
fn attempts_run_out() {
    let mut cache = ClientDirectoryCache::from_snapshot(&balanced_snapshot(4, 2, 1));
    let route = cache.route(b"k").unwrap().clone();
    let mut attempts = RouteLoop::start();
    for _ in 0..MAX_ROUTE_RETRIES {
        assert_ne!(attempts.begin(&cache, b"k"), Attempt::GiveUp);
        let outcome: Result<((), Option<AssignmentWire>), ClusterError> =
            Err(ClusterError::NoLeader(route.partition.get()));
        assert!(matches!(attempts.take_write(&mut cache, &route, outcome), RouteStep::Again));
    }
    assert_eq!(attempts.begin(&cache, b"k"), Attempt::GiveUp);
    let err = attempts.give_up("gone");
    assert_eq!(err.code(), ErrorCode::PartitionUnavailable);
}

#[test]
fn stale_reads_are_named() {
    let mut cache = ClientDirectoryCache::from_snapshot(&balanced_snapshot(4, 2, 1));
    let route = cache.route(b"k").unwrap().clone();
    let mut moved = assignment(route.partition.get(), 2, 2);
    moved.leader = 1 - moved.leader;
    let mut attempts = RouteLoop::start();
    assert!(!attempts.check_read(&mut cache, &route, &Some(moved)));
    let err = attempts.give_up("gone");
    assert!(err.to_text().contains("stale get route attempt 0"), "{}", err.to_text());
    assert_eq!(err.code(), ErrorCode::StaleRoute);
}

#[test]
fn cluster_errors_keep_their_codes() {
    let cases = vec![
        (ClusterError::NoLeader(3), ErrorCode::PartitionUnavailable),
        (ClusterError::CoverageIncomplete("x".into()), ErrorCode::CoverageIncomplete),
        (ClusterError::ConsistencyViolation("x".into()), ErrorCode::ConsistencyViolation),
        (ClusterError::DurabilityUnavailable("x".into()), ErrorCode::DurabilityUnavailable),
    ];
    for (e, code) in cases {
        assert_eq!(map_cluster(e).code(), code);
    }
}

#[test]
fn scan_limits_leave_room_for_other_collections() {
    assert_eq!(scan_limit(None), None);
    assert_eq!(scan_limit(Some(3)), Some(24));
    assert_eq!(scan_limit(Some(usize::MAX)), Some(usize::MAX));
}

#[test]
fn subjects_must_be_text() {
    assert_eq!(subject_str(b"users/alice").unwrap(), "users/alice");
    assert!(subject_str(&[0xff, 0xfe]).is_err());
}

#[test]
fn names_and_keys_come_from_subjects() {
    let subjects = || {
        vec![
            Some(("b".to_string(), "1".to_string())),
            None,
            Some(("a".to_string(), "2".to_string())),
            Some(("b".to_string(), "0".to_string())),
        ]
    };
    assert_eq!(collection_names(&subjects()), ["a", "b"]);
    assert_eq!(collection_keys(subjects(), "b"), ["0", "1"]);
}

#[test]
fn store_id_falls_back_to_the_cluster() {
    assert_eq!(shown_store_id(&[0; 16], &[7; 16]), [7; 16]);
    assert_eq!(shown_store_id(&[1; 16], &[7; 16]), [1; 16]);
}
