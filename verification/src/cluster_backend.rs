//! Routing over a cluster: which node an operation is sent to, and what follows
//! from a route that turns out stale.
//!
//! The caller talks to the cluster. A [`RouteLoop`] holds the attempts of one
//! operation; after a bounded number of them the last error stands.
use crate::app_v1::{DeleteReceipt, DurabilityMode, WriteReceipt};
use crate::codec::{read_utf8, same16, utf8_in};
use crate::collection::{finish_query, finished, plus, row_models, ResultCap};
use crate::covered_reads::queue_of;
use crate::directory_cache::{
    entry_refreshed, partition_for, route_for, AssignmentWire, CacheView, CachedRoute,
    ClientDirectoryCache, RouteView,
};
use crate::error::{outcome, Error, ErrorView, IoErrorKind, StoreError};
use crate::filter::{filter_matches, Filter, FilterView, QueryOptions, QueryOptionsView};
use crate::json::{Json, JsonView};
use crate::portable_find::KeyOrder;
use crate::sorting::{sort, sorted};
use crate::text::{cat2, cat3, cat5, compare_text, decimal, decimal_text, same_text, text_order, texts, Order};
use vstd::prelude::*;

verus! {

/// Attempts of one operation.
pub const MAX_ROUTE_RETRIES: u32 = 3;

/// An error of the cluster.
#[derive(Debug)]
pub enum ClusterError {
    /// The store of a node failed.
    Store(StoreError),
    /// A partition is unavailable.
    PartitionUnavailable {
        /// Partition.
        partition: u32,
        /// Why.
        reason: &'static str,
    },
    /// Coverage is incomplete.
    CoverageIncomplete(String),
    /// The durability cannot be met.
    DurabilityUnavailable(String),
    /// A partition has no leader.
    NoLeader(u32),
    /// The consistency mode forbids it.
    ConsistencyViolation(String),
    /// A rebalance failed.
    Rebalance(String),
    /// A continuation is invalid.
    ContinuationInvalid(String),
    /// There is a cluster already.
    AlreadyExists(String),
    /// There is no cluster.
    NotACluster(String),
    /// The cluster's metadata does not decode.
    CorruptMeta(String),
    /// A replica refused a write.
    ReplicationRejected(String),
    /// I/O failed.
    Io {
        /// Kind.
        kind: IoErrorKind,
        /// Message.
        text: String,
    },
}

/// An error of the cluster as an error of the library.
pub open spec fn cluster_error(e: ClusterError) -> ErrorView {
    match e {
        ClusterError::Store(s) => ErrorView::Store(s@),
        ClusterError::PartitionUnavailable { partition, reason } => ErrorView::PartitionUnavailable {
            partition,
            reason: reason@,
        },
        ClusterError::CoverageIncomplete(m) => ErrorView::CoverageIncomplete(m@),
        ClusterError::DurabilityUnavailable(m) => ErrorView::DurabilityUnavailable(m@),
        ClusterError::NoLeader(p) => ErrorView::PartitionUnavailable {
            partition: p,
            reason: "no leader"@,
        },
        ClusterError::ConsistencyViolation(m) => ErrorView::ConsistencyViolation(m@),
        ClusterError::Rebalance(m) => ErrorView::Internal("rebalance: "@ + m@),
        ClusterError::ContinuationInvalid(m) => ErrorView::ValidationMsg(
            "distributed query continuation invalid: "@ + m@,
        ),
        ClusterError::AlreadyExists(p) => ErrorView::ValidationMsg(
            "cluster already exists: "@ + p@,
        ),
        ClusterError::NotACluster(p) => ErrorView::ValidationMsg("not a cluster: "@ + p@),
        ClusterError::CorruptMeta(m) => ErrorView::Internal("corrupt cluster meta: "@ + m@),
        ClusterError::ReplicationRejected(m) => ErrorView::Internal("replication rejected: "@ + m@),
        ClusterError::Io { kind, text } => if kind == IoErrorKind::Other {
            ErrorView::Io(text@)
        } else {
            ErrorView::DeadlineExceeded(text@)
        },
    }
}

/// An error of the cluster as an error of the library.
pub fn map_cluster(e: ClusterError) -> (r: Error)
    ensures
        r@ == cluster_error(e),
{
    match e {
        ClusterError::Store(s) => Error::Store(s),
        ClusterError::PartitionUnavailable { partition, reason } => Error::PartitionUnavailable {
            partition,
            reason,
        },
        ClusterError::CoverageIncomplete(m) => Error::CoverageIncomplete(m),
        ClusterError::DurabilityUnavailable(m) => Error::DurabilityUnavailable(m),
        ClusterError::NoLeader(p) => Error::PartitionUnavailable {
            partition: p,
            reason: "no leader",
        },
        ClusterError::ConsistencyViolation(m) => Error::ConsistencyViolation(m),
        ClusterError::Rebalance(m) => Error::Internal(cat2("rebalance: ", m.as_str())),
        ClusterError::ContinuationInvalid(m) => Error::ValidationMsg(
            cat2("distributed query continuation invalid: ", m.as_str()),
        ),
        ClusterError::AlreadyExists(p) => Error::ValidationMsg(
            cat2("cluster already exists: ", p.as_str()),
        ),
        ClusterError::NotACluster(p) => Error::ValidationMsg(cat2("not a cluster: ", p.as_str())),
        ClusterError::CorruptMeta(m) => Error::Internal(
            cat2("corrupt cluster meta: ", m.as_str()),
        ),
        ClusterError::ReplicationRejected(m) => Error::Internal(
            cat2("replication rejected: ", m.as_str()),
        ),
        ClusterError::Io { kind, text } => Error::from_io(kind, text),
    }
}

/// The attempts of one operation.
#[derive(Debug)]
pub struct RouteLoop {
    /// Attempts that ended.
    pub attempt: u32,
    /// Error of the last one that had one.
    pub last: Option<Error>,
}

/// Model of a [`RouteLoop`].
#[verifier::ext_equal]
pub struct RouteLoopView {
    pub attempt: u32,
    pub last: Option<ErrorView>,
}

impl View for RouteLoop {
    type V = RouteLoopView;

    open spec fn view(&self) -> RouteLoopView {
        RouteLoopView {
            attempt: self.attempt,
            last: match self.last {
                Some(e) => Some(e@),
                None => None,
            },
        }
    }
}

/// One attempt more, up to the bound.
pub open spec fn next_attempt(n: u32) -> u32 {
    if n < MAX_ROUTE_RETRIES {
        (n + 1) as u32
    } else {
        n
    }
}

/// The attempts after one that failed.
pub open spec fn failed_attempt(s: RouteLoopView, e: ErrorView) -> RouteLoopView {
    RouteLoopView { attempt: next_attempt(s.attempt), last: Some(e) }
}

/// A key has a route that is not marked stale.
pub open spec fn fresh(c: CacheView, key: Seq<u8>) -> bool {
    route_for(c, key) is Some && !c.stale.contains(
        partition_for(key, c.virtual_partitions) as u32,
    )
}

/// A cache with a partition marked stale.
pub open spec fn marked_stale(c: CacheView, partition: u32) -> CacheView {
    CacheView { stale: c.stale.insert(partition), ..c }
}

/// A cache after an assignment was seen, where one was.
pub open spec fn seen(c: CacheView, a: Option<AssignmentWire>) -> CacheView {
    match a {
        Some(a) => entry_refreshed(c, a@),
        None => c,
    }
}

/// What an attempt begins with.
#[derive(Debug, Clone, Copy, PartialEq, Eq, Structural)]
pub enum Attempt {
    /// Nothing: there were enough attempts.
    GiveUp,
    /// A refresh of the directory.
    Refresh,
    /// The cached route.
    Route,
}

/// How an operation goes on.
#[derive(Debug)]
pub enum RouteStep<A> {
    /// It is done.
    Done(A),
    /// It is tried again, after a refresh of the directory.
    Again,
    /// It is read from any replica instead.
    AnyReplica,
    /// It failed.
    Fail(Error),
}

/// The cached route differs from the live assignment in leader, placement or
/// term.
pub open spec fn write_moved(route: RouteView, live: Option<AssignmentWire>) -> bool {
    live matches Some(a) && (a@.leader != route.leader || a@.placement_epoch
        != route.placement_epoch || a@.term != route.term)
}

/// The cached route differs from the live assignment in leader or placement.
pub open spec fn read_moved(route: RouteView, live: Option<AssignmentWire>) -> bool {
    live matches Some(a) && (a@.leader != route.leader || a@.placement_epoch
        != route.placement_epoch)
}

/// The words of a write route that is stale.
pub open spec fn write_moved_text(route: RouteView, live: RouteView, attempt: u32) -> Seq<char> {
    ("cached leader NodeId("@ + decimal(route.leader as nat) + ") epoch "@ + decimal(
        route.placement_epoch as nat,
    ) + " != live leader NodeId("@) + (decimal(live.leader as nat) + ") epoch "@ + decimal(
        live.placement_epoch as nat,
    ) + " (attempt "@ + decimal(attempt as nat)) + ")"@
}

fn write_moved_message(route: &CachedRoute, live: &AssignmentWire, attempt: u32) -> (r: String)
    ensures
        r@ == write_moved_text(route@, live@, attempt),
{
    let left = cat5(
        "cached leader NodeId(",
        decimal_text(route.leader.index() as u64).as_str(),
        ") epoch ",
        decimal_text(route.placement_epoch.0).as_str(),
        " != live leader NodeId(",
    );
    let right = cat5(
        decimal_text(live.leader as u64).as_str(),
        ") epoch ",
        decimal_text(live.placement_epoch).as_str(),
        " (attempt ",
        decimal_text(attempt as u64).as_str(),
    );
    cat3(left.as_str(), right.as_str(), ")")
}

/// What a write came to: its acknowledgement with the assignment after it, or
/// an error.
pub open spec fn write_step<A>(
    s: RouteLoopView,
    c: CacheView,
    partition: u32,
    outcome: Result<(A, Option<AssignmentWire>), ClusterError>,
) -> (RouteLoopView, CacheView) {
    match outcome {
        Ok(o) => (s, seen(c, o.1)),
        Err(e) => if e is NoLeader || e is PartitionUnavailable {
            (failed_attempt(s, cluster_error(e)), marked_stale(c, partition))
        } else {
            (s, c)
        },
    }
}

/// What a read came to.
pub open spec fn read_step<A>(
    s: RouteLoopView,
    c: CacheView,
    partition: u32,
    outcome: Result<(A, Option<AssignmentWire>), ClusterError>,
) -> (RouteLoopView, CacheView) {
    match outcome {
        Ok(o) => (s, seen(c, o.1)),
        Err(e) => if e is NoLeader || e is PartitionUnavailable {
            (
                failed_attempt(
                    s,
                    ErrorView::PartitionUnavailable {
                        partition,
                        reason: "leader unavailable; refreshed directory"@,
                    },
                ),
                marked_stale(c, partition),
            )
        } else {
            (s, c)
        },
    }
}

impl RouteLoop {
    /// No attempt yet.
    pub fn start() -> (r: RouteLoop)
        ensures
            r@ == (RouteLoopView { attempt: 0, last: None }),
    {
        RouteLoop { attempt: 0, last: None }
    }

    fn fail(&mut self, e: Error)
        ensures
            final(self)@ == failed_attempt(old(self)@, e@),
    {
        if self.attempt < MAX_ROUTE_RETRIES {
            self.attempt = self.attempt + 1;
        }
        self.last = Some(e);
    }

    /// Begins the next attempt.
    pub fn begin(&self, cache: &ClientDirectoryCache, key: &[u8]) -> (r: Attempt)
        ensures
            r == (if self@.attempt >= MAX_ROUTE_RETRIES {
                Attempt::GiveUp
            } else if fresh(cache@, key@) {
                Attempt::Route
            } else {
                Attempt::Refresh
            }),
    {
        if self.attempt >= MAX_ROUTE_RETRIES {
            Attempt::GiveUp
        } else if cache.route_checked(key).is_some() {
            Attempt::Route
        } else {
            Attempt::Refresh
        }
    }

    /// Goes on after the directory was refreshed for an attempt. Gives whether
    /// there is a route now; where there is none the attempt has failed.
    pub fn refreshed(&mut self, cache: &ClientDirectoryCache, key: &[u8]) -> (r: bool)
        ensures
            r == fresh(cache@, key@),
            final(self)@ == (if r {
                old(self)@
            } else {
                failed_attempt(
                    old(self)@,
                    ErrorView::PartitionUnavailable {
                        partition: partition_for(key@, cache@.virtual_partitions) as u32,
                        reason: "no route after directory refresh"@,
                    },
                )
            }),
    {
        if cache.route_checked(key).is_some() {
            return true;
        }
        let p = cache.partition_of(key);
        self.fail(
            Error::PartitionUnavailable {
                partition: p.get(),
                reason: "no route after directory refresh",
            },
        );
        false
    }

    /// The error that stands after the last attempt.
    pub fn give_up(self, message: &str) -> (r: Error)
        ensures
            r@ == (match self@.last {
                Some(e) => e,
                None => ErrorView::Internal(message@),
            }),
    {
        match self.last {
            Some(e) => e,
            None => Error::Internal(message.to_string()),
        }
    }

    /// The cached route that a write goes by.
    pub fn write_route(&self, cache: &ClientDirectoryCache, key: &[u8]) -> (r: Result<
        CachedRoute,
        Error,
    >)
        ensures
            match r {
                Ok(route) => route_for(cache@, key@) == Some(route@),
                Err(e) => route_for(cache@, key@) is None && e@ == ErrorView::Internal(
                    "no cached route after refresh"@,
                ),
            },
    {
        match cache.route(key) {
            Some(route) => Ok(route.clone()),
            None => Err(Error::Internal("no cached route after refresh".to_string())),
        }
    }

    /// The cached route that a read goes by. Without one the attempt is over.
    pub fn read_route(&mut self, cache: &ClientDirectoryCache, key: &[u8]) -> (r: Option<
        CachedRoute,
    >)
        ensures
            match r {
                Some(route) => route_for(cache@, key@) == Some(route@) && final(self)@
                    == old(self)@,
                None => route_for(cache@, key@) is None && final(self)@ == (RouteLoopView {
                    attempt: next_attempt(old(self)@.attempt),
                    ..old(self)@
                }),
            },
    {
        match cache.route(key) {
            Some(route) => Some(route.clone()),
            None => {
                if self.attempt < MAX_ROUTE_RETRIES {
                    self.attempt = self.attempt + 1;
                }
                None
            },
        }
    }

    /// Holds the cached route of a write against the live assignment. Gives
    /// whether the write may be sent; a stale route is replaced and the attempt
    /// has failed.
    pub fn check_write(
        &mut self,
        cache: &mut ClientDirectoryCache,
        route: &CachedRoute,
        live: &Option<AssignmentWire>,
    ) -> (r: bool)
        ensures
            r == !write_moved(route@, *live),
            if r {
                final(self)@ == old(self)@ && final(cache)@ == old(cache)@
            } else {
                final(self)@ == failed_attempt(
                    old(self)@,
                    ErrorView::StaleRoute {
                        partition: route@.partition,
                        message: write_moved_text(route@, live->0@, old(self)@.attempt),
                    },
                ) && final(cache)@ == entry_refreshed(
                    marked_stale(old(cache)@, route@.partition),
                    live->0@,
                )
            },
    {
        match live {
            Some(a) => {
                if a.leader != route.leader.index() || a.placement_epoch != route.placement_epoch.0
                    || a.term != route.term.0 {
                    cache.mark_stale(route.partition);
                    cache.refresh_entry_wire(a);
                    let message = write_moved_message(route, a, self.attempt);
                    self.fail(Error::StaleRoute { partition: route.partition.get(), message });
                    return false;
                }
                true
            },
            None => true,
        }
    }

    /// Holds the cached route of a read against the live assignment.
    pub fn check_read(
        &mut self,
        cache: &mut ClientDirectoryCache,
        route: &CachedRoute,
        live: &Option<AssignmentWire>,
    ) -> (r: bool)
        ensures
            r == !read_moved(route@, *live),
            if r {
                final(self)@ == old(self)@ && final(cache)@ == old(cache)@
            } else {
                final(self)@ == failed_attempt(
                    old(self)@,
                    ErrorView::StaleRoute {
                        partition: route@.partition,
                        message: "stale get route attempt "@ + decimal(
                            old(self)@.attempt as nat,
                        ),
                    },
                ) && final(cache)@ == entry_refreshed(old(cache)@, live->0@)
            },
    {
        match live {
            Some(a) => {
                if a.leader != route.leader.index() || a.placement_epoch
                    != route.placement_epoch.0 {
                    cache.refresh_entry_wire(a);
                    let message = cat2(
                        "stale get route attempt ",
                        decimal_text(self.attempt as u64).as_str(),
                    );
                    self.fail(Error::StaleRoute { partition: route.partition.get(), message });
                    return false;
                }
                true
            },
            None => true,
        }
    }

    /// Takes what a write came to. `outcome` holds the acknowledgement and the
    /// assignment of its partition afterwards.
    pub fn take_write<A>(
        &mut self,
        cache: &mut ClientDirectoryCache,
        route: &CachedRoute,
        outcome: Result<(A, Option<AssignmentWire>), ClusterError>,
    ) -> (r: RouteStep<A>)
        ensures
            (final(self)@, final(cache)@) == write_step(
                old(self)@,
                old(cache)@,
                route@.partition,
                outcome,
            ),
            match outcome {
                Ok(o) => r == RouteStep::Done(o.0),
                Err(e) => if e is NoLeader || e is PartitionUnavailable {
                    r is Again
                } else {
                    r matches RouteStep::Fail(x) && x@ == cluster_error(e)
                },
            },
    {
        match outcome {
            Ok(o) => {
                if let Some(a) = &o.1 {
                    cache.refresh_entry_wire(a);
                }
                RouteStep::Done(o.0)
            },
            Err(e) => {
                let unavailable = match &e {
                    ClusterError::NoLeader(_) => true,
                    ClusterError::PartitionUnavailable { .. } => true,
                    _ => false,
                };
                if unavailable {
                    cache.mark_stale(route.partition);
                    self.fail(map_cluster(e));
                    RouteStep::Again
                } else {
                    RouteStep::Fail(map_cluster(e))
                }
            },
        }
    }

    /// Takes what a read came to. A cluster that cannot read consistently is
    /// read from any replica.
    pub fn take_read<A>(
        &mut self,
        cache: &mut ClientDirectoryCache,
        route: &CachedRoute,
        outcome: Result<(A, Option<AssignmentWire>), ClusterError>,
    ) -> (r: RouteStep<A>)
        ensures
            (final(self)@, final(cache)@) == read_step(
                old(self)@,
                old(cache)@,
                route@.partition,
                outcome,
            ),
            match outcome {
                Ok(o) => r == RouteStep::Done(o.0),
                Err(e) => if e is ConsistencyViolation {
                    r is AnyReplica
                } else if e is NoLeader || e is PartitionUnavailable {
                    r is Again
                } else {
                    r matches RouteStep::Fail(x) && x@ == cluster_error(e)
                },
            },
    {
        match outcome {
            Ok(o) => {
                if let Some(a) = &o.1 {
                    cache.refresh_entry_wire(a);
                }
                RouteStep::Done(o.0)
            },
            Err(ClusterError::ConsistencyViolation(_)) => RouteStep::AnyReplica,
            Err(e) => {
                let unavailable = match &e {
                    ClusterError::NoLeader(_) => true,
                    ClusterError::PartitionUnavailable { .. } => true,
                    _ => false,
                };
                if unavailable {
                    cache.mark_stale(route.partition);
                    self.fail(
                        Error::PartitionUnavailable {
                            partition: route.partition.get(),
                            reason: "leader unavailable; refreshed directory",
                        },
                    );
                    RouteStep::Again
                } else {
                    RouteStep::Fail(map_cluster(e))
                }
            },
        }
    }
}

/// A stale route that was held against the live assignment of its partition is
/// replaced by it: the next attempt goes by the live leader.
pub proof fn law_stale_route_is_replaced(c: CacheView, key: Seq<u8>, live: RouteView)
    requires
        live.partition == partition_for(key, c.virtual_partitions) as u32,
    ensures
        route_for(entry_refreshed(c, live), key) == Some(live),
        fresh(entry_refreshed(c, live), key),
{
}

/// Every failed attempt counts, so an operation ends after so many of them.
pub proof fn law_attempts_are_bounded(s: RouteLoopView, e: ErrorView)
    requires
        s.attempt < MAX_ROUTE_RETRIES,
    ensures
        failed_attempt(s, e).attempt == s.attempt + 1,
        failed_attempt(s, e).attempt <= MAX_ROUTE_RETRIES,
        failed_attempt(s, e).last == Some(e),
{
}

/// How many documents a cluster find asks for: more than the limit, so that
/// the filter can still fill it.
pub fn scan_limit(limit: Option<usize>) -> (r: Option<usize>)
    ensures
        match limit {
            Some(n) => r is Some && r->0 == (if 8 * n > usize::MAX {
                usize::MAX as int
            } else {
                8 * n
            }),
            None => r is None,
        },
{
    match limit {
        Some(n) => if n > usize::MAX / 8 {
            Some(usize::MAX)
        } else {
            Some(n * 8)
        },
        None => None,
    }
}

/// What a cluster find covered.
#[derive(Debug, Clone, Copy)]
pub struct FindCoverage {
    /// Whether something is missing.
    pub incomplete: bool,
    /// Whether a budget stopped it.
    pub resource_limit_reached: bool,
    /// Partitions that were not reached.
    pub unavailable: usize,
    /// Partitions that answered.
    pub completed: usize,
    /// Partitions that were asked.
    pub requested: usize,
}

/// Why the coverage of a find is refused, where it is.
pub open spec fn coverage_refused(
    coverage: FindCoverage,
    query_id: Seq<char>,
    options: QueryOptionsView,
) -> Option<ErrorView> {
    if !coverage.incomplete || options.allow_partial_coverage {
        None
    } else if coverage.resource_limit_reached {
        Some(
            ErrorView::QueryBudgetRequired(
                "cluster scan hit resource budget before full coverage (query_id="@ + query_id
                    + "); raise budget or set allow_partial_coverage"@,
            ),
        )
    } else {
        Some(
            ErrorView::CoverageIncomplete(
                ("cluster find coverage incomplete: "@ + decimal(coverage.unavailable as nat)
                    + " unavailable partition(s), completed="@ + decimal(coverage.completed as nat)
                    + "/"@) + (decimal(coverage.requested as nat)
                    + "; set allow_partial_coverage to accept partial matches (query_id="@
                    + query_id) + ")"@,
            ),
        )
    }
}

/// Refuses a find whose coverage is not enough, so that no match is never
/// taken for an empty collection.
pub fn check_coverage(coverage: &FindCoverage, query_id: &str, options: &QueryOptions) -> (r: Result<
    (),
    Error,
>)
    ensures
        match r {
            Ok(_) => coverage_refused(*coverage, query_id@, options@) is None,
            Err(e) => coverage_refused(*coverage, query_id@, options@) == Some(e@),
        },
{
    if !coverage.incomplete || options.allow_partial_coverage {
        return Ok(());
    }
    if coverage.resource_limit_reached {
        return Err(
            Error::QueryBudgetRequired(
                cat3(
                    "cluster scan hit resource budget before full coverage (query_id=",
                    query_id,
                    "); raise budget or set allow_partial_coverage",
                ),
            ),
        );
    }
    let left = cat5(
        "cluster find coverage incomplete: ",
        decimal_text(coverage.unavailable as u64).as_str(),
        " unavailable partition(s), completed=",
        decimal_text(coverage.completed as u64).as_str(),
        "/",
    );
    let right = cat3(
        decimal_text(coverage.requested as u64).as_str(),
        "; set allow_partial_coverage to accept partial matches (query_id=",
        query_id,
    );
    Err(Error::CoverageIncomplete(cat3(left.as_str(), right.as_str(), ")")))
}

/// A document that a cluster find gave.
#[derive(Debug)]
pub struct ClusterEntry {
    /// Collection and key of the subject, where it has them.
    pub subject: Option<(String, String)>,
    /// The document, or why it does not decode.
    pub decoded: Result<Json, Error>,
    /// Size estimate of the row.
    pub size: u64,
}

/// The matches among the documents of a find. A document of another type is
/// passed over; any other failure to decode refuses the find.
pub open spec fn cluster_matches(
    entries: Seq<ClusterEntry>,
    collection: Seq<char>,
    filter: FilterView,
) -> Result<Seq<(Seq<char>, JsonView)>, ErrorView>
    decreases entries.len(),
{
    if entries.len() == 0 {
        Ok(Seq::empty())
    } else {
        match cluster_matches(entries.drop_last(), collection, filter) {
            Err(e) => Err(e),
            Ok(rows) => match entries.last().subject {
                Some(subject) => if subject.0@ != collection {
                    Ok(rows)
                } else {
                    match entries.last().decoded {
                        Err(e) => if e@ is TypeMismatch {
                            Ok(rows)
                        } else {
                            Err(e@)
                        },
                        Ok(v) => if filter_matches(filter, v@) {
                            Ok(rows.push((subject.1@, v@)))
                        } else {
                            Ok(rows)
                        },
                    }
                },
                None => Ok(rows),
            },
        }
    }
}

proof fn lemma_matches_refused(
    entries: Seq<ClusterEntry>,
    collection: Seq<char>,
    filter: FilterView,
    n: int,
)
    requires
        0 <= n <= entries.len(),
        cluster_matches(entries.take(n), collection, filter) is Err,
    ensures
        cluster_matches(entries, collection, filter) == cluster_matches(
            entries.take(n),
            collection,
            filter,
        ),
    decreases entries.len(),
{
    if n < entries.len() {
        assert(entries.drop_last().take(n) =~= entries.take(n));
        lemma_matches_refused(entries.drop_last(), collection, filter, n);
    } else {
        assert(entries.take(n) =~= entries);
    }
}

/// The matches among the documents of a find.
pub fn keep_matches(entries: Vec<ClusterEntry>, collection: &str, filter: &Filter) -> (r: Result<
    Vec<(String, Json)>,
    Error,
>)
    ensures
        match r {
            Ok(rows) => cluster_matches(entries@, collection@, filter@) == Ok::<
                Seq<(Seq<char>, JsonView)>,
                ErrorView,
            >(row_models(rows@)),
            Err(e) => cluster_matches(entries@, collection@, filter@) == Err::<
                Seq<(Seq<char>, JsonView)>,
                ErrorView,
            >(e@),
        },
{
    let ghost all = entries@;
    let mut rest = queue_of(entries);
    let mut rows: Vec<(String, Json)> = Vec::new();
    let ghost mut i: int = 0;
    proof {
        assert(all.take(0) =~= Seq::empty());
        assert(row_models(rows@) =~= Seq::empty());
    }
    while rest.len() > 0
        invariant
            all == entries@,
            0 <= i <= all.len(),
            rest@ =~= all.skip(i),
            cluster_matches(all.take(i), collection@, filter@) == Ok::<
                Seq<(Seq<char>, JsonView)>,
                ErrorView,
            >(row_models(rows@)),
        decreases rest@.len(),
    {
        if let Some(entry) = rest.pop_front() {
            let ghost before = row_models(rows@);
            proof {
                assert(entry == all[i]);
                assert(all.take(i + 1).drop_last() =~= all.take(i));
                assert(all.take(i + 1).last() == entry);
            }
            match entry.subject {
                Some(subject) => {
                    if same_text(subject.0.as_str(), collection) {
                        match entry.decoded {
                            Err(e) => {
                                let skip = match &e {
                                    Error::TypeMismatch { .. } => true,
                                    _ => false,
                                };
                                if !skip {
                                    proof {
                                        lemma_matches_refused(all, collection@, filter@, i + 1);
                                    }
                                    return Err(e);
                                }
                            },
                            Ok(v) => {
                                if filter.matches(&v) {
                                    rows.push((subject.1, v));
                                    proof {
                                        assert(row_models(rows@) =~= before.push(
                                            (subject.1@, v@),
                                        ));
                                    }
                                }
                            },
                        }
                    }
                },
                None => {},
            }
            proof {
                i = i + 1;
            }
        }
    }
    proof {
        assert(all.take(all.len() as int) =~= all);
    }
    Ok(rows)
}

/// The id that the backend shows: the store that was written last, else the
/// cluster.
pub fn shown_store_id(last_store_id: &[u8; 16], cluster_id: &[u8; 16]) -> (r: [u8; 16])
    ensures
        r == (if last_store_id@ != Seq::new(16, |i: int| 0u8) {
            *last_store_id
        } else {
            *cluster_id
        }),
{
    let zero: [u8; 16] = [0u8; 16];
    proof {
        assert(zero@ =~= Seq::new(16, |i: int| 0u8));
    }
    if same16(last_store_id, &zero) {
        *cluster_id
    } else {
        *last_store_id
    }
}

/// The text of an encoded subject.
pub fn subject_str(bytes: &[u8]) -> (r: Result<String, Error>)
    ensures
        match utf8_in(bytes@) {
            Some(s) => r is Ok && r->Ok_0@ == s,
            None => r is Err && r->Err_0@ == ErrorView::Internal("subject is not UTF-8"@),
        },
{
    match read_utf8(bytes) {
        Some(s) => Ok(s),
        None => Err(Error::Internal("subject is not UTF-8".to_string())),
    }
}

/// The keys of a collection among decoded subjects.
pub open spec fn own_subject_keys(
    subjects: Seq<Option<(String, String)>>,
    collection: Seq<char>,
) -> Seq<String>
    decreases subjects.len(),
{
    if subjects.len() == 0 {
        Seq::empty()
    } else {
        let before = own_subject_keys(subjects.drop_last(), collection);
        match subjects.last() {
            Some(s) => if s.0@ == collection {
                before.push(s.1)
            } else {
                before
            },
            None => before,
        }
    }
}

/// The keys of a collection among decoded subjects, in order.
pub fn collection_keys(subjects: Vec<Option<(String, String)>>, collection: &str) -> (r: Vec<String>)
    ensures
        r@ == sorted(KeyOrder {  }, own_subject_keys(subjects@, collection@)),
{
    let ghost all = subjects@;
    let mut rest = queue_of(subjects);
    let mut keys: Vec<String> = Vec::new();
    let ghost mut i: int = 0;
    proof {
        assert(all.take(0) =~= Seq::empty());
    }
    while rest.len() > 0
        invariant
            all == subjects@,
            0 <= i <= all.len(),
            rest@ =~= all.skip(i),
            keys@ == own_subject_keys(all.take(i), collection@),
        decreases rest@.len(),
    {
        if let Some(s) = rest.pop_front() {
            proof {
                assert(s == all[i]);
                assert(all.take(i + 1).drop_last() =~= all.take(i));
                assert(all.take(i + 1).last() == s);
            }
            match s {
                Some(pair) => {
                    if same_text(pair.0.as_str(), collection) {
                        keys.push(pair.1);
                    }
                },
                None => {},
            }
            proof {
                i = i + 1;
            }
        }
    }
    proof {
        assert(all.take(all.len() as int) =~= all);
    }
    sort(&KeyOrder {  }, keys)
}

/// Texts strictly ascend.
pub open spec fn texts_ascend(v: Seq<Seq<char>>) -> bool {
    forall|i: int, j: int|
        0 <= i < j < v.len() ==> text_order(#[trigger] v[i], #[trigger] v[j]) == Order::Less
}

fn insert_name(names: &mut Vec<String>, name: String)
    requires
        texts_ascend(texts(old(names)@)),
    ensures
        texts_ascend(texts(final(names)@)),
        forall|t: Seq<char>| #[trigger]
            texts(final(names)@).contains(t) <==> (t == name@ || texts(old(names)@).contains(t)),
{
    let ghost before = texts(names@);
    let mut i: usize = 0;
    while i < names.len()
        invariant
            i <= names@.len(),
            names@ == old(names)@,
            before == texts(names@),
            texts_ascend(before),
            forall|k: int| 0 <= k < i ==> text_order(#[trigger] before[k], name@) == Order::Less,
        decreases names@.len() - i,
    {
        proof {
            crate::text::lemma_text_order_flip(name@, before[i as int]);
            crate::text::lemma_text_order_equal(name@, before[i as int]);
        }
        match compare_text(name.as_str(), names[i].as_str()) {
            Order::Less => {
                names.insert(i, name);
                proof {
                    let after = texts(names@);
                    assert(after =~= before.insert(i as int, name@));
                    assert forall|a: int, b: int| 0 <= a < b < after.len() implies text_order(
                        #[trigger] after[a],
                        #[trigger] after[b],
                    ) == Order::Less by {
                        if b < i {
                            assert(after[a] == before[a] && after[b] == before[b]);
                        } else if b == i {
                            assert(after[a] == before[a]);
                        } else if a < i {
                            assert(after[a] == before[a] && after[b] == before[b - 1]);
                        } else if a == i {
                            assert(after[b] == before[b - 1]);
                            if b - 1 > i {
                                crate::text::lemma_text_order_transitive(
                                    name@,
                                    before[i as int],
                                    before[b - 1],
                                );
                            }
                        } else {
                            assert(after[a] == before[a - 1] && after[b] == before[b - 1]);
                        }
                    }
                    assert forall|t: Seq<char>| #[trigger] after.contains(t) <==> (t == name@
                        || before.contains(t)) by {
                        if after.contains(t) {
                            let k = choose|k: int| 0 <= k < after.len() && after[k] == t;
                            if k < i {
                                assert(before[k] == t);
                            } else if k > i {
                                assert(before[k - 1] == t);
                            }
                        }
                        if t == name@ {
                            assert(after[i as int] == t);
                        }
                        if before.contains(t) {
                            let k = choose|k: int| 0 <= k < before.len() && before[k] == t;
                            if k < i {
                                assert(after[k] == t);
                            } else {
                                assert(after[k + 1] == t);
                            }
                        }
                    }
                }
                return ;
            },
            Order::Equal => {
                proof {
                    assert(before[i as int] == name@);
                    assert(before.contains(name@));
                }
                return ;
            },
            Order::Greater => {},
        }
        i = i + 1;
    }
    names.push(name);
    proof {
        let after = texts(names@);
        assert(after =~= before.push(name@));
        assert forall|t: Seq<char>| #[trigger] after.contains(t) <==> (t == name@
            || before.contains(t)) by {
            if after.contains(t) {
                let k = choose|k: int| 0 <= k < after.len() && after[k] == t;
                if k < before.len() {
                    assert(before[k] == t);
                }
            }
            if t == name@ {
                assert(after[before.len() as int] == t);
            }
            if before.contains(t) {
                let k = choose|k: int| 0 <= k < before.len() && before[k] == t;
                assert(after[k] == t);
            }
        }
    }
}

/// A collection has a live subject.
pub open spec fn has_subject(subjects: Seq<Option<(String, String)>>, name: Seq<char>) -> bool {
    exists|i: int|
        0 <= i < subjects.len() && (#[trigger] subjects[i] matches Some(s) && s.0@ == name)
}

/// The names of the collections that have live subjects: each once, in order.
pub fn collection_names(subjects: &Vec<Option<(String, String)>>) -> (r: Vec<String>)
    ensures
        texts_ascend(texts(r@)),
        forall|t: Seq<char>| #[trigger] texts(r@).contains(t) <==> has_subject(subjects@, t),
{
    let mut names: Vec<String> = Vec::new();
    let mut i: usize = 0;
    proof {
        assert(texts(names@) =~= Seq::empty());
    }
    while i < subjects.len()
        invariant
            i <= subjects@.len(),
            texts_ascend(texts(names@)),
            forall|t: Seq<char>| #[trigger]
                texts(names@).contains(t) <==> has_subject(subjects@.take(i as int), t),
        decreases subjects@.len() - i,
    {
        let ghost before = texts(names@);
        let ghost head = subjects@.take(i as int);
        let ghost next = subjects@.take(i + 1);
        match &subjects[i] {
            Some(s) => {
                insert_name(&mut names, s.0.clone());
            },
            None => {},
        }
        proof {
            assert forall|t: Seq<char>| #[trigger] texts(names@).contains(t) <==> has_subject(
                next,
                t,
            ) by {
                assert(before.contains(t) <==> has_subject(head, t));
                if has_subject(head, t) {
                    let k = choose|k: int|
                        0 <= k < head.len() && (#[trigger] head[k] matches Some(s) && s.0@ == t);
                    assert(next[k] == head[k]);
                }
                if has_subject(next, t) {
                    let k = choose|k: int|
                        0 <= k < next.len() && (#[trigger] next[k] matches Some(s) && s.0@ == t);
                    if k < i {
                        assert(head[k] == next[k]);
                    }
                }
                assert(next[i as int] == subjects@[i as int]);
            }
        }
        i = i + 1;
    }
    proof {
        assert(subjects@.take(subjects@.len() as int) =~= subjects@);
    }
    names
}

/// A document of a find is a match.
pub open spec fn is_match(e: ClusterEntry, collection: Seq<char>, filter: FilterView) -> bool {
    (e.subject matches Some(subject) && subject.0@ == collection) && (e.decoded matches Ok(v)
        && filter_matches(filter, v@))
}

/// The size of the matches.
pub open spec fn matched_bytes(
    entries: Seq<ClusterEntry>,
    collection: Seq<char>,
    filter: FilterView,
) -> u64
    decreases entries.len(),
{
    if entries.len() == 0 {
        0
    } else {
        let before = matched_bytes(entries.drop_last(), collection, filter);
        if is_match(entries.last(), collection, filter) {
            plus(before, entries.last().size)
        } else {
            before
        }
    }
}

fn size_matches(entries: &Vec<ClusterEntry>, collection: &str, filter: &Filter) -> (r: u64)
    ensures
        r == matched_bytes(entries@, collection@, filter@),
{
    let mut total: u64 = 0;
    let mut i: usize = 0;
    proof {
        assert(entries@.take(0) =~= Seq::empty());
    }
    while i < entries.len()
        invariant
            i <= entries@.len(),
            total == matched_bytes(entries@.take(i as int), collection@, filter@),
        decreases entries@.len() - i,
    {
        proof {
            assert(entries@.take(i + 1).drop_last() =~= entries@.take(i as int));
            assert(entries@.take(i + 1).last() == entries@[i as int]);
        }
        let e = &entries[i];
        let own = match &e.subject {
            Some(subject) => same_text(subject.0.as_str(), collection),
            None => false,
        };
        let matches = match &e.decoded {
            Ok(v) => filter.matches(v),
            Err(_) => false,
        };
        if own && matches {
            total = total.saturating_add(e.size);
        }
        i = i + 1;
    }
    proof {
        assert(entries@.take(entries@.len() as int) =~= entries@);
    }
    total
}

/// What a cluster find gives.
#[derive(Debug)]
pub struct ClusterFindResult {
    /// Matches from the partitions that answered.
    pub rows: Vec<(String, Json)>,
    /// What was covered; to be looked at before no match is taken for absence.
    pub coverage: FindCoverage,
    /// Identity of the query.
    pub query_id: String,
    /// Whether the scan was cut short before the filter.
    pub truncated: bool,
    /// Whether there is a further page.
    pub has_more: bool,
    /// Where the next page goes on.
    pub continuation: Option<Vec<u8>>,
}

/// What a cluster scan gave.
#[derive(Debug)]
pub struct ClusterScan {
    /// Documents.
    pub entries: Vec<ClusterEntry>,
    /// What was covered.
    pub coverage: FindCoverage,
    /// Identity of the query.
    pub query_id: String,
    /// Whether it was cut short.
    pub truncated: bool,
    /// Whether there is a further page.
    pub has_more: bool,
    /// Where the next page goes on.
    pub continuation: Option<Vec<u8>>,
}

/// The rows of a find: refused where the coverage is not enough, where a
/// document does not decode, and where the matches are too large.
pub open spec fn find_rows(
    scan: ClusterScan,
    collection: Seq<char>,
    filter: FilterView,
    options: QueryOptionsView,
    cap: ResultCap,
    token: Result<(), ErrorView>,
) -> Result<Seq<(Seq<char>, JsonView)>, ErrorView> {
    match coverage_refused(scan.coverage, scan.query_id@, options) {
        Some(e) => Err(e),
        None => match cluster_matches(scan.entries@, collection, filter) {
            Err(e) => Err(e),
            Ok(rows) => finished(
                rows,
                matched_bytes(scan.entries@, collection, filter),
                options,
                cap,
                token,
            ),
        },
    }
}

/// Makes the result of a find from what the cluster scan gave. `token` is what a
/// look at the token of the options gave, once the matches are there.
pub fn find_with_coverage(
    scan: ClusterScan,
    collection: &str,
    filter: &Filter,
    options: &QueryOptions,
    cap: &ResultCap,
    token: Result<(), Error>,
) -> (r: Result<ClusterFindResult, Error>)
    ensures
        match r {
            Err(e) => find_rows(scan, collection@, filter@, options@, *cap, outcome(token)) == Err::<
                Seq<(Seq<char>, JsonView)>,
                ErrorView,
            >(e@),
            Ok(f) => find_rows(scan, collection@, filter@, options@, *cap, outcome(token)) == Ok::<
                Seq<(Seq<char>, JsonView)>,
                ErrorView,
            >(row_models(f.rows@)) && f.coverage == scan.coverage && f.query_id == scan.query_id
                && f.truncated == scan.truncated && f.has_more == scan.has_more && f.continuation
                == scan.continuation,
        },
{
    check_coverage(&scan.coverage, scan.query_id.as_str(), options)?;
    let bytes = size_matches(&scan.entries, collection, filter);
    let matches = keep_matches(scan.entries, collection, filter)?;
    let rows = finish_query(matches, bytes, options, cap, token)?;
    Ok(
        ClusterFindResult {
            rows,
            coverage: scan.coverage,
            query_id: scan.query_id,
            truncated: scan.truncated,
            has_more: scan.has_more,
            continuation: scan.continuation,
        },
    )
}

/// A find that gives rows without leave to be partial covered everything.
pub proof fn law_rows_are_covered(
    scan: ClusterScan,
    collection: Seq<char>,
    filter: FilterView,
    options: QueryOptionsView,
    cap: ResultCap,
    token: Result<(), ErrorView>,
)
    requires
        !options.allow_partial_coverage,
        find_rows(scan, collection, filter, options, cap, token) is Ok,
    ensures
        !scan.coverage.incomplete,
{
}

/// The acknowledgement of a write by the cluster.
#[derive(Debug, Clone, Copy)]
pub struct ClusterWriteAck {
    /// Event that was written.
    pub event_id: [u8; 16],
    /// Whether it is committed.
    pub committed: bool,
    /// Store id.
    pub store_id: [u8; 16],
    /// Segment id.
    pub segment_id: [u8; 16],
}

/// The receipt of a write.
pub fn write_receipt_from_ack(key: &str, ack: &ClusterWriteAck, requested: DurabilityMode) -> (r:
    WriteReceipt)
    ensures
        r.key@ == key@,
        r.event_id == ack.event_id,
        r.version == ack.event_id,
        r.acknowledgement == requested,
        r.committed == ack.committed,
        r.store_id == ack.store_id,
        r.segment_id == ack.segment_id,
{
    WriteReceipt {
        key: key.to_string(),
        event_id: ack.event_id,
        version: ack.event_id,
        acknowledgement: requested,
        committed: ack.committed,
        store_id: ack.store_id,
        segment_id: ack.segment_id,
    }
}

/// The receipt of a delete. `existed` is what was read of the key before.
pub fn delete_receipt_from_ack(
    key: &str,
    existed: bool,
    ack: &ClusterWriteAck,
    requested: DurabilityMode,
) -> (r: DeleteReceipt)
    ensures
        r.key@ == key@,
        r.removed == existed,
        r.event_id == ack.event_id,
        r.version == ack.event_id,
        r.acknowledgement == requested,
        r.committed == ack.committed,
        r.store_id == ack.store_id,
        r.segment_id == ack.segment_id,
{
    DeleteReceipt {
        key: key.to_string(),
        removed: existed,
        event_id: ack.event_id,
        version: ack.event_id,
        acknowledgement: requested,
        committed: ack.committed,
        store_id: ack.store_id,
        segment_id: ack.segment_id,
    }
}

} // verus!
