//! What the driver and the calls of an application promise: which requests are
//! admitted and run, what a plan may do, and what a listing and a find give.
use crate::app_calls::{found_all, holes_of, next_key, page_coverage, rows_of, ListedView};
use crate::app_v1::{CoveragePolicy, HoleView};
use crate::codec::utf8_in;
use crate::driver::atomics::{bound_outcome, Frontier};
use crate::driver::schedule::{
    abandoned, admitted, begun, finished, steady, ticket_from, unsent, BeginView, Job,
    ScheduleView, Stage,
};
use crate::driver::{typed_rows, ErrorCode, OperationId, RawRow, RequestId, RetryDisposition};
use crate::filter::{filter_matches, FilterView};
use crate::heap::{HeapCap, HeapCollection};
use crate::json::JsonView;
use vstd::prelude::*;

verus! {

/// A request is admitted exactly where its deadline has not come, the client is
/// open and the queue has room; else it is told which of these fails. Only a
/// full queue may be tried again. An admitted request waits behind all others,
/// under a ticket of its own, with what it was asked with.
pub proof fn law_admission_is_decided_by_time_and_room(
    s: ScheduleView,
    now: u64,
    request_id: RequestId,
    operation_id: Option<OperationId>,
    deadline: Option<u64>,
)
    ensures
        ({
            let due = deadline is Some && deadline->0 <= now;
            let (after, r) = admitted(s, now, request_id, operation_id, deadline);
            &&& r is Ok <==> !due && !s.closed && s.queued < s.queue_capacity
            &&& due ==> r is Err && r->Err_0.code == ErrorCode::DeadlineExceeded
                && r->Err_0.retry == RetryDisposition::Never
            &&& !due && s.closed ==> r is Err && r->Err_0.code == ErrorCode::Closed
                && r->Err_0.retry == RetryDisposition::Never
            &&& !due && !s.closed && s.queued >= s.queue_capacity ==> r is Err && r->Err_0.code
                == ErrorCode::Overloaded && r->Err_0.retry is After
            &&& r is Err ==> after.jobs == s.jobs && after.queued == s.queued && after.entries
                == s.entries && r->Err_0.request_id == Some(request_id) && r->Err_0.operation_id
                == operation_id
            &&& r is Ok ==> {
                let job = after.jobs.last();
                &&& after.jobs.len() == s.jobs.len() + 1
                &&& after.jobs.drop_last() == s.jobs
                &&& job.ticket == r->Ok_0
                &&& job.request_id == request_id
                &&& job.operation_id == operation_id
                &&& job.deadline == deadline
                &&& job.stage == Stage::Queued
                &&& !job.cancelled
                &&& after.queued == s.queued + 1
                &&& after.running == s.running
            }
        }),
{
    let job = crate::driver::schedule::new_job(s, request_id, operation_id, deadline);
    assert(s.jobs.push(job).drop_last() =~= s.jobs);
}

proof fn lemma_ticket(jobs: Seq<Job>, ticket: u64, i: int, from: int)
    requires
        0 <= from <= i < jobs.len(),
        jobs[i].ticket == ticket,
        forall|j: int| from <= j < i ==> (#[trigger] jobs[j]).ticket != ticket,
    ensures
        ticket_from(jobs, ticket, from) == Some(i),
    decreases i - from,
{
    if from < i {
        assert(jobs[from].ticket != ticket);
        lemma_ticket(jobs, ticket, i, from + 1);
    }
}

/// A waiting request runs exactly where its deadline has not come and it was
/// not cancelled; then it is running and all others are as they were. Where it
/// does not run it leaves, and is told why. A request that runs already is not
/// run again.
pub proof fn law_waiting_request_runs_or_leaves(s: ScheduleView, now: u64, i: int)
    requires
        steady(s),
        0 <= i < s.jobs.len(),
    ensures
        ({
            let job = s.jobs[i];
            let due = job.deadline is Some && job.deadline->0 <= now;
            let (after, r) = begun(s, now, job.ticket);
            &&& r == BeginView::Run <==> job.stage == Stage::Queued && !due && !job.cancelled
            &&& r == BeginView::Unknown <==> job.stage != Stage::Queued
            &&& r == BeginView::Run ==> after.jobs == s.jobs.update(
                i,
                Job { stage: Stage::Dispatched, ..job },
            ) && after.queued == s.queued - 1 && after.running == s.running + 1
            &&& r == BeginView::Unknown ==> after == s
            &&& r is Refuse ==> after.jobs == s.jobs.remove(i) && after.queued == s.queued - 1
                && after.running == s.running
            &&& r is Refuse && due ==> r->Refuse_0.code == ErrorCode::DeadlineExceeded
            &&& r is Refuse && !due ==> r->Refuse_0.code == ErrorCode::CancelledBeforeDispatch
            &&& r is Refuse ==> r->Refuse_0.request_id == Some(job.request_id)
                && r->Refuse_0.operation_id == job.operation_id && r->Refuse_0.retry
                == RetryDisposition::Never
        }),
{
    lemma_ticket(s.jobs, s.jobs[i].ticket, i, 0);
    lemma_counted(s.jobs, i);
}

proof fn lemma_counted(jobs: Seq<Job>, i: int)
    requires
        0 <= i < jobs.len(),
    ensures
        crate::driver::schedule::count(jobs, jobs[i].stage) >= 1,
        crate::driver::schedule::count(jobs, Stage::Dispatched) <= jobs.len(),
        jobs[i].stage == Stage::Queued ==> crate::driver::schedule::count(jobs, Stage::Dispatched)
            < jobs.len(),
        crate::driver::schedule::count(jobs, Stage::Queued) >= 0,
        crate::driver::schedule::count(jobs, Stage::Dispatched) >= 0,
    decreases jobs.len(),
{
    let shorter = jobs.drop_last();
    if i < shorter.len() {
        assert(shorter[i] == jobs[i]);
        lemma_counted(shorter, i);
    } else if shorter.len() > 0 {
        lemma_counted(shorter, 0);
    } else {
        assert(crate::driver::schedule::count(shorter, Stage::Queued) == 0);
        assert(crate::driver::schedule::count(shorter, Stage::Dispatched) == 0);
    }
}

/// A running request that finishes leaves, and counts as completed; one that
/// still waits does not finish.
pub proof fn law_running_request_finishes(s: ScheduleView, i: int)
    requires
        steady(s),
        0 <= i < s.jobs.len(),
    ensures
        ({
            let after = finished(s, s.jobs[i].ticket);
            &&& s.jobs[i].stage == Stage::Dispatched ==> after.jobs == s.jobs.remove(i)
                && after.running == s.running - 1 && after.queued == s.queued
            &&& s.jobs[i].stage == Stage::Dispatched && s.completed < u64::MAX ==> after.completed
                == s.completed + 1
            &&& s.jobs[i].stage == Stage::Queued ==> after == s
        }),
{
    lemma_ticket(s.jobs, s.jobs[i].ticket, i, 0);
    lemma_counted(s.jobs, i);
}

/// A plan reads and writes in a collection only what the authority allows, and
/// only under the capability that the collection was opened with.
pub proof fn law_plan_has_the_rights_of_its_authority(
    cap: HeapCap,
    collection: HeapCollection,
    frontier: Frontier,
)
    ensures
        bound_outcome(cap, collection, frontier) is Ok <==> cap.instance == collection.cap.instance
            && frontier is Stands,
        bound_outcome(cap, collection, frontier) is Err ==> bound_outcome(
            cap,
            collection,
            frontier,
        )->Err_0.code == ErrorCode::PermissionDenied,
        bound_outcome(cap, collection, frontier) is Ok ==> {
            let b = bound_outcome(cap, collection, frontier)->Ok_0;
            &&& b.heap_id == cap.heap_id
            &&& b.collection_id == collection.id
            &&& b.rights.read == frontier->Stands_read
            &&& b.rights.create == frontier->Stands_write
            &&& b.rights.put == frontier->Stands_write
            &&& b.rights.replace == frontier->Stands_write
            &&& b.rights.delete == frontier->Stands_write
            &&& b.revision == frontier->Stands_revision
        },
{
}

/// The row of a listed key whose document could be read.
pub open spec fn listed_row() -> spec_fn(ListedView) -> Option<(Seq<char>, JsonView)> {
    |l: ListedView|
        match l.value {
            Some(v) => Some((l.key, v)),
            None => None,
        }
}

/// The hole of a listed key whose document could not be read.
pub open spec fn listed_hole() -> spec_fn(ListedView) -> Option<HoleView> {
    |l: ListedView|
        match l.value {
            Some(_) => None,
            None => Some(HoleView { code: "key_listed_absent"@, key: Some(l.key) }),
        }
}

/// A page gives a row for each listed key with a document and a hole for each
/// without, in their order; none is passed over.
pub proof fn law_page_gives_rows_and_holes(listed: Seq<ListedView>)
    ensures
        rows_of(listed) == listed.filter_map(listed_row()),
        holes_of(listed) == listed.filter_map(listed_hole()),
        rows_of(listed).len() + holes_of(listed).len() == listed.len(),
    decreases listed.len(),
{
    if listed.len() > 0 {
        let shorter = listed.drop_last();
        law_page_gives_rows_and_holes(shorter);
        let last = listed.last();
        let rows = shorter.filter_map(listed_row());
        let holes = shorter.filter_map(listed_hole());
        if last.value is Some {
            let row = (last.key, last.value->0);
            assert(rows + seq![row] =~= rows.push(row));
        } else {
            let hole = HoleView { code: "key_listed_absent"@, key: Some(last.key) };
            assert(holes + seq![hole] =~= holes.push(hole));
        }
    }
}

/// The next page begins behind the last key of this one, and there is none
/// where nothing is behind it. A page is complete only where it says so and
/// has no hole.
pub proof fn law_next_page_begins_behind_this_one(
    listed: Seq<ListedView>,
    complete: bool,
    rows: nat,
    holes: nat,
)
    ensures
        next_key(listed, false) is None,
        listed.len() > 0 ==> next_key(listed, true) == Some(listed[listed.len() - 1].key),
        page_coverage(complete, rows, holes).complete <==> complete && holes == 0,
        page_coverage(complete, rows, holes).complete ==> page_coverage(complete, rows, holes).mode
            == CoveragePolicy::Complete && page_coverage(complete, rows, holes).hole_count == 0,
{
}

/// The row of a listed key whose document matches.
pub open spec fn matching_listed(filter: FilterView) -> spec_fn(ListedView) -> Option<
    (Seq<char>, JsonView),
> {
    |l: ListedView|
        match l.value {
            Some(v) => if filter_matches(filter, v) {
                Some((l.key, v))
            } else {
                None
            },
            None => None,
        }
}

/// A find over a listing gives the first of the matching rows, as many as its
/// limit, in the order of the listing.
pub proof fn law_find_gives_the_first_matches(
    filter: FilterView,
    listed: Seq<ListedView>,
    limit: nat,
)
    ensures
        ({
            let all = listed.filter_map(matching_listed(filter));
            found_all(filter, listed, limit) == all.take(
                if limit < all.len() {
                    limit as int
                } else {
                    all.len() as int
                },
            )
        }),
    decreases listed.len(),
{
    let all = listed.filter_map(matching_listed(filter));
    if listed.len() == 0 {
        assert(found_all(filter, listed, limit) =~= all.take(0));
    } else {
        let shorter = listed.drop_last();
        law_find_gives_the_first_matches(filter, shorter, limit);
        let before = shorter.filter_map(matching_listed(filter));
        let done = found_all(filter, shorter, limit);
        if matching_listed(filter)(listed.last()) is Some {
            let row = matching_listed(filter)(listed.last())->0;
            assert(all == before + seq![row]);
            if before.len() < limit {
                assert(done =~= before);
                assert(found_all(filter, listed, limit) =~= all.take(all.len() as int));
            } else {
                assert(found_all(filter, listed, limit) =~= all.take(limit as int));
            }
        } else {
            assert(all == before);
        }
    }
}

/// The rows of a scan are those that the store gave, one for one, each with its
/// key, its value and its version. The scan is refused exactly where a key is
/// no text or a value does not decode.
pub proof fn law_scan_rows_are_those_of_the_store<T>(entries: Seq<RawRow<T>>)
    ensures
        typed_rows(entries) is Err <==> exists|i: int|
            0 <= i < entries.len() && (utf8_in((#[trigger] entries[i]).key@) is None
                || entries[i].decoded is Err),
        typed_rows(entries) is Ok ==> {
            let rows = typed_rows(entries)->Ok_0;
            &&& rows.len() == entries.len()
            &&& forall|i: int|
                0 <= i < rows.len() ==> Some((#[trigger] rows[i]).key) == utf8_in(entries[i].key@)
                    && entries[i].decoded is Ok && rows[i].value == entries[i].decoded->Ok_0
                    && rows[i].version == entries[i].version
        },
    decreases entries.len(),
{
    if entries.len() > 0 {
        let shorter = entries.drop_last();
        let n = entries.len() - 1;
        law_scan_rows_are_those_of_the_store(shorter);
        assert(entries[n] == entries.last());
        if exists|i: int|
            0 <= i < shorter.len() && (utf8_in((#[trigger] shorter[i]).key@) is None
                || shorter[i].decoded is Err) {
            let i = choose|i: int|
                0 <= i < shorter.len() && (utf8_in((#[trigger] shorter[i]).key@) is None
                    || shorter[i].decoded is Err);
            assert(entries[i] == shorter[i]);
        }
        if exists|i: int|
            0 <= i < entries.len() && (utf8_in((#[trigger] entries[i]).key@) is None
                || entries[i].decoded is Err) {
            let i = choose|i: int|
                0 <= i < entries.len() && (utf8_in((#[trigger] entries[i]).key@) is None
                    || entries[i].decoded is Err);
            if i < n {
                assert(entries[i] == shorter[i]);
            }
        }
        if typed_rows(entries) is Ok {
            let earlier = typed_rows(shorter)->Ok_0;
            let rows = typed_rows(entries)->Ok_0;
            assert forall|i: int| 0 <= i < rows.len() implies Some((#[trigger] rows[i]).key)
                == utf8_in(entries[i].key@) && entries[i].decoded is Ok && rows[i].value
                == entries[i].decoded->Ok_0 && rows[i].version == entries[i].version by {
                if i < n {
                    assert(rows[i] == earlier[i]);
                    assert(shorter[i] == entries[i]);
                }
            }
        }
    }
}

/// A waiting request that no worker could be sent leaves, and may be tried
/// again only where the workers were busy. One that nobody waits for any more
/// stays where it is and is marked.
pub proof fn law_unsent_request_leaves(s: ScheduleView, i: int, full: bool)
    requires
        steady(s),
        0 <= i < s.jobs.len(),
    ensures
        ({
            let job = s.jobs[i];
            let (after, r) = unsent(s, job.ticket, full);
            &&& job.stage != Stage::Queued ==> after == s && r is None
            &&& job.stage == Stage::Queued ==> after.jobs == s.jobs.remove(i) && after.queued
                == s.queued - 1 && after.running == s.running && r is Some
            &&& job.stage == Stage::Queued && full ==> r->0.code == ErrorCode::Overloaded
                && r->0.retry is After
            &&& job.stage == Stage::Queued && !full ==> r->0.code == ErrorCode::Closed && r->0.retry
                == RetryDisposition::Never
            &&& job.stage == Stage::Queued ==> r->0.request_id == Some(job.request_id)
        }),
        abandoned(s, s.jobs[i].ticket).jobs == s.jobs.update(
            i,
            Job { cancelled: true, ..s.jobs[i] },
        ),
        abandoned(s, s.jobs[i].ticket).queued == s.queued,
        abandoned(s, s.jobs[i].ticket).running == s.running,
{
    lemma_ticket(s.jobs, s.jobs[i].ticket, i, 0);
    lemma_counted(s.jobs, i);
}

} // verus!
