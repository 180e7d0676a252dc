//! Application calls that take more than one step: what comes next, and what
//! the caller is told.
use crate::app_v1::{
    hole_views, query_rows, zero16, AddResult, CollectionId, CollectionInfo, CoverageEvidence,
    CoveragePolicy, DeleteReceipt, DeleteWithOptions, DurabilityMode, HeapId, HoleEvidence,
    HoleView, KeyProfile, QueryRow, ScanJsonPage, UpsertResult, WriteReceipt,
    ADD_KEY_MINT_ATTEMPTS, KEY_PROFILE_RANDOM_V1,
};
use crate::app_wire::{
    count_of, counted, parse_hex16, read_holes, reply_holes, wire_bytes,
};
use crate::codec::same16;
use crate::covered_reads::{queue_of, HostDocument, HostDocumentView};
use crate::error::{code_of, lift_store_cas, lifted, outcome, Error, ErrorCode, ErrorView};
use crate::filter::{filter_matches, Filter, FilterView};
use crate::heap::WriteCondition;
use crate::json::{models, Json, JsonView};
use crate::text::{cat2, cat3, cat5, decimal, decimal_text, same_text, texts};
use std::sync::Arc;
use vstd::prelude::*;

verus! {

/// What an upsert does after its create was tried.
#[derive(Debug)]
pub enum UpsertStep {
    /// The key was new.
    Done(UpsertResult),
    /// The key exists: put the value.
    Put,
    /// The create failed for another reason.
    Failed(Error),
}

/// Decides what an upsert does after its create was tried.
pub fn upsert_after_create(created: Result<WriteReceipt, Error>) -> (r: UpsertStep)
    ensures
        match created {
            Ok(receipt) => r == UpsertStep::Done(UpsertResult { inserted: true, receipt }),
            Err(e) => if code_of(e@) == ErrorCode::AlreadyExists {
                r is Put
            } else {
                r == UpsertStep::Failed(e)
            },
        },
{
    match created {
        Ok(receipt) => UpsertStep::Done(UpsertResult { inserted: true, receipt }),
        Err(e) => {
            if e.code() == ErrorCode::AlreadyExists {
                UpsertStep::Put
            } else {
                UpsertStep::Failed(e)
            }
        },
    }
}

/// The result of an upsert whose put was tried.
pub fn upsert_after_put(put: Result<WriteReceipt, Error>) -> (r: Result<UpsertResult, Error>)
    ensures
        match put {
            Ok(receipt) => r == Ok::<UpsertResult, Error>(
                UpsertResult { inserted: false, receipt },
            ),
            Err(e) => r == Err::<UpsertResult, Error>(e),
        },
{
    match put {
        Ok(receipt) => Ok(UpsertResult { inserted: false, receipt }),
        Err(e) => Err(e),
    }
}

/// What an add does with a key it has generated.
#[derive(Debug)]
pub enum AddStep {
    /// The key is free: put the value.
    Put,
    /// The key is taken: generate another.
    Again,
    /// Every attempt met a taken key.
    Exhausted(Error),
}

/// Decides what an add does with the key of attempt `attempt`, counted from
/// zero, once it is known whether the key is taken.
pub fn add_step(attempt: usize, taken: bool) -> (r: AddStep)
    requires
        attempt < ADD_KEY_MINT_ATTEMPTS,
    ensures
        match r {
            AddStep::Put => !taken,
            AddStep::Again => taken && attempt + 1 < ADD_KEY_MINT_ATTEMPTS,
            AddStep::Exhausted(e) => taken && attempt + 1 == ADD_KEY_MINT_ATTEMPTS && e@
                == ErrorView::Internal("add: exhausted generated-key collision retries"@),
        },
{
    if !taken {
        AddStep::Put
    } else if attempt + 1 < ADD_KEY_MINT_ATTEMPTS {
        AddStep::Again
    } else {
        AddStep::Exhausted(
            Error::Internal("add: exhausted generated-key collision retries".to_string()),
        )
    }
}

/// The result of an add whose put was made.
pub fn added_result(key: String, profile: KeyProfile, receipt: WriteReceipt) -> (r: AddResult)
    ensures
        r.key == key,
        r.key_profile@ == KEY_PROFILE_RANDOM_V1@,
        r.receipt == receipt,
{
    AddResult { key, key_profile: profile.as_str(), receipt }
}

/// What a conditional replace that failed on a server tells the caller: a
/// version conflict names the version the caller required.
pub fn map_replace_error(e: Error, if_version: [u8; 16]) -> (r: Error)
    ensures
        r@ == match e@ {
            ErrorView::VersionConflict { expected, observed } => ErrorView::VersionConflict {
                expected: if_version,
                observed,
            },
            other => other,
        },
{
    match e {
        Error::VersionConflict { expected: _, observed } => Error::VersionConflict {
            expected: if_version,
            observed,
        },
        other => other,
    }
}

/// What a delete in a store of this process does first.
#[derive(Debug)]
pub enum DeleteStep {
    /// Delete under this condition.
    Delete(WriteCondition),
    /// Look whether the key is there.
    Look,
}

/// Decides what a delete does first: a required version is a condition, a
/// required presence is a condition, and otherwise the key is looked at.
pub fn delete_start(cond: &DeleteWithOptions) -> (r: DeleteStep)
    ensures
        match r {
            DeleteStep::Delete(WriteCondition::LiveEventId(v)) => cond.if_version == Some(v),
            DeleteStep::Delete(WriteCondition::Present) => cond.if_version is None
                && cond.if_present,
            DeleteStep::Look => cond.if_version is None && !cond.if_present,
            _ => false,
        },
{
    match cond.if_version {
        Some(v) => DeleteStep::Delete(WriteCondition::LiveEventId(v)),
        None => if cond.if_present {
            DeleteStep::Delete(WriteCondition::Present)
        } else {
            DeleteStep::Look
        },
    }
}

/// The id of zeros.
pub open spec fn zero16_bytes() -> Seq<u8> {
    Seq::new(16, |i: int| 0u8)
}

/// What a delete that looked does next: a key that is absent needs no delete,
/// and the receipt says that nothing was removed.
pub fn delete_after_look(key: &str, present: bool, durability: DurabilityMode) -> (r: Result<
    WriteCondition,
    DeleteReceipt,
>)
    ensures
        match r {
            Ok(c) => present && c is Unconditional,
            Err(receipt) => !present && receipt.key@ == key@ && !receipt.removed
                && receipt.committed && receipt.acknowledgement == durability
                && receipt.event_id@ == zero16_bytes() && receipt.version@ == zero16_bytes()
                && receipt.store_id@ == zero16_bytes() && receipt.segment_id@ == zero16_bytes(),
        },
{
    if present {
        return Ok(WriteCondition::Unconditional);
    }
    Err(
        DeleteReceipt {
            key: key.to_string(),
            removed: false,
            event_id: zero16(),
            version: zero16(),
            acknowledgement: durability,
            committed: true,
            store_id: zero16(),
            segment_id: zero16(),
        },
    )
}

/// What a delete that failed in a store of this process tells the caller: a
/// required presence that does not hold is a key that is not found.
pub open spec fn delete_refusal(e: ErrorView, required_present: bool, key: Seq<char>) -> ErrorView {
    if required_present && code_of(lifted(e)) == ErrorCode::VersionConflict {
        ErrorView::NotFound("key absent: "@ + key)
    } else {
        lifted(e)
    }
}

/// Maps the failure of a delete in a store of this process.
pub fn map_delete_error(e: Error, condition: &WriteCondition, key: &str) -> (r: Error)
    ensures
        r@ == delete_refusal(e@, condition is Present, key@),
{
    let lifted_error = lift_store_cas(e);
    let present = match condition {
        WriteCondition::Present => true,
        _ => false,
    };
    if present && lifted_error.code() == ErrorCode::VersionConflict {
        return Error::NotFound(cat2("key absent: ", key));
    }
    lifted_error
}

/// What a delete that failed on a server tells the caller.
pub open spec fn remote_delete_refusal(
    e: ErrorView,
    cond: DeleteWithOptions,
    key: Seq<char>,
) -> ErrorView {
    match e {
        ErrorView::VersionConflict { expected, observed } => if cond.if_present
            && cond.if_version is None {
            ErrorView::NotFound("key absent: "@ + key)
        } else {
            ErrorView::VersionConflict {
                expected: match cond.if_version {
                    Some(v) => v,
                    None => expected,
                },
                observed,
            }
        },
        ErrorView::Remote { code, message } => if code == "not_found"@ {
            ErrorView::NotFound(message)
        } else {
            e
        },
        _ => e,
    }
}

/// Maps the failure of a delete on a server.
pub fn map_remote_delete_error(e: Error, cond: &DeleteWithOptions, key: &str) -> (r: Error)
    ensures
        r@ == remote_delete_refusal(e@, *cond, key@),
{
    match e {
        Error::VersionConflict { expected, observed } => {
            if cond.if_present && cond.if_version.is_none() {
                return Error::NotFound(cat2("key absent: ", key));
            }
            let expected = match cond.if_version {
                Some(v) => v,
                None => expected,
            };
            Error::VersionConflict { expected, observed }
        },
        Error::Remote { code, message } => {
            if same_text(code.as_str(), "not_found") {
                Error::NotFound(message)
            } else {
                Error::Remote { code, message }
            }
        },
        other => other,
    }
}

/// The receipt of a delete on a server. Ids that do not read are zeros; a
/// version that does not read is the event.
pub fn remote_delete_receipt(
    key: &str,
    removed: bool,
    event_id: &str,
    version: &str,
    durability: DurabilityMode,
) -> (r: DeleteReceipt)
    ensures
        r.key@ == key@,
        r.removed == removed,
        r.event_id@ == (match wire_bytes(event_id@, 16) {
            Ok(b) => b,
            Err(_) => Seq::new(16, |i: int| 0u8),
        }),
        r.version@ == (match wire_bytes(version@, 16) {
            Ok(b) => b,
            Err(_) => r.event_id@,
        }),
        r.acknowledgement == durability,
        r.committed,
        r.store_id@ == zero16_bytes(),
        r.segment_id@ == zero16_bytes(),
{
    let event = match parse_hex16(event_id) {
        Ok(b) => b,
        Err(_) => zero16(),
    };
    let version = match parse_hex16(version) {
        Ok(b) => b,
        Err(_) => event,
    };
    DeleteReceipt {
        key: key.to_string(),
        removed,
        event_id: event,
        version,
        acknowledgement: durability,
        committed: true,
        store_id: zero16(),
        segment_id: zero16(),
    }
}

/// Rows per page where none are asked for.
pub const DEFAULT_PAGE: u32 = 256;

/// Most rows per page.
pub const MAX_PAGE: u32 = 4096;

/// Rows per page that a request is served with.
pub fn page_limit(limit: Option<u32>) -> (r: usize)
    ensures
        r == (match limit {
            None => 256,
            Some(n) => if n < 1 {
                1
            } else if n > 4096 {
                4096
            } else {
                n as int
            },
        }),
{
    let n = match limit {
        Some(n) => n,
        None => DEFAULT_PAGE,
    };
    if n < 1 {
        1
    } else if n > MAX_PAGE {
        MAX_PAGE as usize
    } else {
        n as usize
    }
}

/// Most keys that one listing gives.
pub const MAX_LISTING: usize = 4096;

/// Keys that a scan lists for a page: one more than the page holds, to see
/// whether there is more, within the limit of a listing.
pub open spec fn fetched(limit: nat) -> nat {
    if limit >= MAX_LISTING {
        MAX_LISTING as nat
    } else {
        limit + 1
    }
}

/// Keys that a scan lists for a page.
pub fn scan_fetch(limit: usize) -> (r: usize)
    ensures
        r == fetched(limit as nat),
{
    if limit >= MAX_LISTING {
        MAX_LISTING
    } else {
        limit + 1
    }
}

/// What was found under a listed key: the document, or nothing.
#[derive(Debug)]
pub struct Listed {
    /// Key.
    pub key: String,
    /// The document, where there still is one.
    pub value: Option<Json>,
}

/// Model of a [`Listed`].
#[verifier::ext_equal]
pub struct ListedView {
    pub key: Seq<char>,
    pub value: Option<JsonView>,
}

impl View for Listed {
    type V = ListedView;

    open spec fn view(&self) -> ListedView {
        ListedView {
            key: self.key@,
            value: match self.value {
                Some(v) => Some(v@),
                None => None,
            },
        }
    }
}

/// The models of listed keys.
pub open spec fn listed_views(v: Seq<Listed>) -> Seq<ListedView> {
    v.map_values(|l: Listed| l@)
}

/// The rows among listed keys: those that still have a document.
pub open spec fn rows_of(listed: Seq<ListedView>) -> Seq<(Seq<char>, JsonView)>
    decreases listed.len(),
{
    if listed.len() == 0 {
        Seq::empty()
    } else {
        match listed.last().value {
            Some(v) => rows_of(listed.drop_last()).push((listed.last().key, v)),
            None => rows_of(listed.drop_last()),
        }
    }
}

/// The holes among listed keys: those that have no document any more.
pub open spec fn holes_of(listed: Seq<ListedView>) -> Seq<HoleView>
    decreases listed.len(),
{
    if listed.len() == 0 {
        Seq::empty()
    } else {
        match listed.last().value {
            Some(_) => holes_of(listed.drop_last()),
            None => holes_of(listed.drop_last()).push(
                HoleView { code: "key_listed_absent"@, key: Some(listed.last().key) },
            ),
        }
    }
}

/// What a page covers: everything, where nothing is missing from it.
pub open spec fn page_coverage(complete: bool, rows: nat, holes: nat) -> CoverageEvidence {
    if complete && holes == 0 {
        CoverageEvidence {
            complete: true,
            mode: CoveragePolicy::Complete,
            examined_documents: counted(rows + holes),
            hole_count: 0,
        }
    } else {
        CoverageEvidence {
            complete: false,
            mode: CoveragePolicy::IncompleteAllowed,
            examined_documents: counted(rows + holes),
            hole_count: holes as u32,
        }
    }
}

fn coverage_of(complete: bool, rows: usize, holes: usize) -> (r: CoverageEvidence)
    ensures
        r == page_coverage(complete, rows as nat, holes as nat),
{
    let examined = count_of(rows, holes);
    if complete && holes == 0 {
        CoverageEvidence::complete(CoveragePolicy::Complete, examined)
    } else {
        CoverageEvidence::incomplete(CoveragePolicy::IncompleteAllowed, examined, holes as u32)
    }
}

/// The key behind which a page goes on: its last, where there is more.
pub open spec fn next_key(listed: Seq<ListedView>, has_more: bool) -> Option<Seq<char>> {
    if has_more && listed.len() > 0 {
        Some(listed.last().key)
    } else {
        None
    }
}

/// Makes a page of the keys of a listing. `has_more` says whether the listing
/// went on behind them. A key that was listed and has no document any more is
/// a hole.
pub fn scan_page(
    heap_id: HeapId,
    collection_id: CollectionId,
    listed: Vec<Listed>,
    has_more: bool,
) -> (r: ScanJsonPage)
    ensures
        r.heap_id == heap_id,
        r.collection_id == collection_id,
        query_rows(r.rows@) == rows_of(listed_views(listed@)),
        hole_views(r.known_holes@) == holes_of(listed_views(listed@)),
        r.exhausted == !has_more,
        match r.next_after_key {
            Some(k) => next_key(listed_views(listed@), has_more) == Some(k@),
            None => next_key(listed_views(listed@), has_more) is None,
        },
        r.coverage == page_coverage(
            true,
            rows_of(listed_views(listed@)).len(),
            holes_of(listed_views(listed@)).len(),
        ),
{
    let ghost all = listed_views(listed@);
    let next_after_key = if has_more && listed.len() > 0 {
        Some(listed[listed.len() - 1].key.clone())
    } else {
        None
    };
    let mut rest = queue_of(listed);
    let mut rows: Vec<QueryRow> = Vec::new();
    let mut known_holes: Vec<HoleEvidence> = Vec::new();
    let ghost mut i: int = 0;
    proof {
        assert(all.take(0) =~= Seq::empty());
        assert(query_rows(rows@) =~= Seq::empty());
        assert(hole_views(known_holes@) =~= Seq::empty());
    }
    while rest.len() > 0
        invariant
            all == listed_views(listed@),
            0 <= i <= all.len(),
            rest@.len() == all.len() - i,
            forall|k: int| 0 <= k < rest@.len() ==> (#[trigger] rest@[k])@ == all[i + k],
            query_rows(rows@) == rows_of(all.take(i)),
            hole_views(known_holes@) == holes_of(all.take(i)),
        decreases rest@.len(),
    {
        let ghost left = rest@;
        if let Some(item) = rest.pop_front() {
            let ghost done = query_rows(rows@);
            let ghost holes = hole_views(known_holes@);
            proof {
                assert(left[0] == item);
                assert(item@ == all[i]);
                assert(all.take(i + 1).drop_last() =~= all.take(i));
                assert(all.take(i + 1).last() == all[i]);
            }
            match item.value {
                Some(value) => {
                    rows.push(QueryRow { key: item.key, value });
                    proof {
                        assert(query_rows(rows@) =~= done.push(rows@[rows@.len() - 1]@));
                    }
                },
                None => {
                    known_holes.push(
                        HoleEvidence {
                            code: "key_listed_absent".to_string(),
                            key: Some(item.key),
                        },
                    );
                    proof {
                        assert(hole_views(known_holes@) =~= holes.push(
                            known_holes@[known_holes@.len() - 1]@,
                        ));
                    }
                },
            }
            proof {
                i = i + 1;
            }
        }
    }
    proof {
        assert(all.take(all.len() as int) =~= all);
        assert(query_rows(rows@).len() == rows@.len());
        assert(hole_views(known_holes@).len() == known_holes@.len());
    }
    let coverage = coverage_of(true, rows.len(), known_holes.len());
    ScanJsonPage {
        heap_id,
        collection_id,
        rows,
        next_after_key,
        exhausted: !has_more,
        coverage,
        known_holes,
    }
}

/// The keys of a page, and whether there are more where that is known.
#[derive(Debug, PartialEq, Eq)]
pub struct KeyPage {
    /// The keys of the page.
    pub keys: Vec<String>,
    /// Whether there are more; `None` where a look behind the last key has to
    /// tell.
    pub has_more: Option<bool>,
}

/// The keys of a page among those that were listed for it, and whether there
/// are more. A full listing that holds no key beyond the page does not tell.
pub open spec fn split_listing(keys: Seq<Seq<char>>, limit: nat) -> (Seq<Seq<char>>, Option<bool>) {
    if keys.len() > limit {
        (keys.take(limit as int), Some(true))
    } else if keys.len() < fetched(limit) {
        (keys, Some(false))
    } else {
        (keys, None)
    }
}

/// Splits the keys that were listed for a page into those of the page and
/// whether there are more.
pub fn page_keys(keys: Vec<String>, limit: usize) -> (r: KeyPage)
    ensures
        (texts(r.keys@), r.has_more) == split_listing(texts(keys@), limit as nat),
{
    let has_more = if keys.len() > limit {
        Some(true)
    } else if keys.len() < scan_fetch(limit) {
        Some(false)
    } else {
        None
    };
    let mut out = keys;
    while out.len() > limit
        invariant
            out@.len() <= keys@.len(),
            out@ =~= keys@.take(out@.len() as int),
            keys@.len() > limit ==> out@.len() >= limit,
            keys@.len() <= limit ==> out@.len() == keys@.len(),
        decreases out@.len(),
    {
        out.pop();
    }
    proof {
        if keys@.len() > limit {
            assert(texts(out@) =~= texts(keys@).take(limit as int));
        } else {
            assert(texts(out@) =~= texts(keys@));
        }
    }
    KeyPage { keys: out, has_more }
}

impl KeyPage {
    /// The key behind which one more key has to be looked for, before it is
    /// known whether there are more.
    pub fn look_behind(&self) -> (r: Option<&str>)
        ensures
            match r {
                Some(k) => self.has_more is None && self.keys@.len() > 0 && k@ == texts(
                    self.keys@,
                ).last(),
                None => self.has_more is Some || self.keys@.len() == 0,
            },
    {
        if self.has_more.is_some() || self.keys.len() == 0 {
            None
        } else {
            Some(self.keys[self.keys.len() - 1].as_str())
        }
    }

    /// The keys of the page and whether there are more. `behind` is what was
    /// listed behind the last key, where that was looked at.
    pub fn settled(self, behind: &Vec<String>) -> (r: (Vec<String>, bool))
        ensures
            r.0 == self.keys,
            r.1 == more_behind(self.has_more, behind@.len()),
    {
        let more = match self.has_more {
            Some(more) => more,
            None => behind.len() > 0,
        };
        (self.keys, more)
    }
}

/// Whether there are more keys: as the listing told, or as a look behind its
/// last key did.
pub open spec fn more_behind(told: Option<bool>, behind: nat) -> bool {
    match told {
        Some(more) => more,
        None => behind > 0,
    }
}

/// What a listing of at most `n` keys gives of the keys that follow.
pub open spec fn listing(live: Seq<Seq<char>>, n: nat) -> Seq<Seq<char>> {
    if live.len() <= n {
        live
    } else {
        live.take(n as int)
    }
}

/// A scan page is exhausted exactly where no key follows it. Of the keys that
/// follow the key it goes on behind, it takes the first ones, as many as it may
/// hold, and it goes on behind the last of those.
pub proof fn law_exhausted_page_is_the_last(live: Seq<Seq<char>>, limit: nat)
    requires
        1 <= limit <= MAX_LISTING,
    ensures
        ({
            let page = split_listing(listing(live, fetched(limit)), limit);
            let behind = listing(live.skip(page.0.len() as int), 1);
            &&& page.0 == listing(live, limit)
            &&& more_behind(page.1, behind.len()) == (live.len() > limit)
            &&& live.len() > limit ==> page.0.last() == live[limit - 1]
        }),
{
    let first = listing(live, fetched(limit));
    let page = split_listing(first, limit);
    if live.len() > limit {
        assert(first.len() >= limit);
        assert(first.take(limit as int) =~= live.take(limit as int));
        assert(page.0 =~= live.take(limit as int));
        assert(live.skip(limit as int).len() > 0);
    } else {
        assert(first =~= live);
    }
}

/// A page of a scan that a server made.
#[derive(Debug)]
pub struct RemoteScanPage {
    /// Rows.
    pub rows: Vec<QueryRow>,
    /// What could not be read, as the server describes it.
    pub incomplete: Vec<Json>,
    /// Whether the server says that nothing is missing.
    pub coverage_complete: bool,
    /// Whether there is no more.
    pub exhausted: bool,
    /// Key to go on behind.
    pub next_after_key: Option<String>,
}

/// Makes a page of a server's page. Only a page that the server calls complete
/// and that names no hole is complete.
pub fn remote_scan_page(heap_id: HeapId, collection_id: CollectionId, page: RemoteScanPage) -> (r:
    ScanJsonPage)
    ensures
        r.heap_id == heap_id,
        r.collection_id == collection_id,
        r.rows == page.rows,
        r.next_after_key == page.next_after_key,
        r.exhausted == page.exhausted,
        hole_views(r.known_holes@) == reply_holes(
            models(page.incomplete@),
            "reason"@,
            "incomplete"@,
        ),
        r.coverage == page_coverage(
            page.coverage_complete,
            page.rows@.len(),
            page.incomplete@.len(),
        ),
{
    let known_holes = read_holes(&page.incomplete, "reason", "incomplete");
    proof {
        assert(hole_views(known_holes@).len() == known_holes@.len());
    }
    let coverage = coverage_of(page.coverage_complete, page.rows.len(), known_holes.len());
    ScanJsonPage {
        heap_id,
        collection_id,
        rows: page.rows,
        next_after_key: page.next_after_key,
        exhausted: page.exhausted,
        coverage,
        known_holes,
    }
}

/// The rows of a find on a server. A result that is not complete is refused.
pub fn remote_find(rows: Vec<QueryRow>, coverage_complete: bool, holes: usize) -> (r: Result<
    Vec<QueryRow>,
    Error,
>)
    ensures
        match r {
            Ok(out) => coverage_complete && out == rows,
            Err(e) => !coverage_complete && e@ == ErrorView::CoverageIncomplete(
                "find incomplete: "@ + decimal(holes as nat)
                    + " hole(s); refuse silent partial match set"@,
            ),
        },
{
    if !coverage_complete {
        return Err(
            Error::CoverageIncomplete(
                cat3(
                    "find incomplete: ",
                    decimal_text(holes as u64).as_str(),
                    " hole(s); refuse silent partial match set",
                ),
            ),
        );
    }
    Ok(rows)
}

/// The matches after one more document: it is taken where it matches and there
/// is room.
pub open spec fn found(
    done: Seq<(Seq<char>, JsonView)>,
    filter: FilterView,
    item: ListedView,
    limit: nat,
) -> Seq<(Seq<char>, JsonView)> {
    if done.len() < limit && item.value is Some && filter_matches(filter, item.value->0) {
        done.push((item.key, item.value->0))
    } else {
        done
    }
}

/// The matches among documents that are read one after the other.
pub open spec fn found_all(filter: FilterView, listed: Seq<ListedView>, limit: nat) -> Seq<
    (Seq<char>, JsonView),
>
    decreases listed.len(),
{
    if listed.len() == 0 {
        Seq::empty()
    } else {
        found(found_all(filter, listed.drop_last(), limit), filter, listed.last(), limit)
    }
}

/// A find gives no more than was asked for, and only matches; with fewer than
/// that it has missed none.
pub proof fn law_find_is_sound(filter: FilterView, listed: Seq<ListedView>, limit: nat)
    ensures
        found_all(filter, listed, limit).len() <= limit,
        forall|i: int|
            0 <= i < found_all(filter, listed, limit).len() ==> filter_matches(
                filter,
                (#[trigger] found_all(filter, listed, limit)[i]).1,
            ),
        found_all(filter, listed, limit).len() < limit ==> forall|k: int|
            0 <= k < listed.len() && (#[trigger] listed[k]).value is Some && filter_matches(
                filter,
                listed[k].value->0,
            ) ==> found_all(filter, listed, limit).contains((listed[k].key, listed[k].value->0)),
    decreases listed.len(),
{
    if listed.len() > 0 {
        let head = listed.drop_last();
        let last = listed.last();
        law_find_is_sound(filter, head, limit);
        let before = found_all(filter, head, limit);
        let after = found_all(filter, listed, limit);
        if after.len() < limit {
            assert forall|k: int| 0 <= k < listed.len() && (#[trigger] listed[k]).value is Some
                && filter_matches(filter, listed[k].value->0) implies after.contains(
                (listed[k].key, listed[k].value->0),
            ) by {
                let row = (listed[k].key, listed[k].value->0);
                if k < listed.len() - 1 {
                    assert(head[k] == listed[k]);
                    let w = choose|w: int| 0 <= w < before.len() && before[w] == row;
                    assert(after[w] == row);
                } else {
                    assert(after[before.len() as int] == row);
                }
            }
        }
    }
}

/// A find that walks the keys of a collection.
#[derive(Debug)]
pub struct FindScan {
    /// Matches so far.
    pub out: Vec<QueryRow>,
    /// Most matches.
    pub limit: usize,
    /// The last key that was read.
    pub after: Option<String>,
}

impl FindScan {
    /// A find at its beginning.
    pub fn start(limit: usize) -> (r: FindScan)
        ensures
            query_rows(r.out@) == Seq::<(Seq<char>, JsonView)>::empty(),
            r.limit == limit,
            r.after is None,
    {
        let out: Vec<QueryRow> = Vec::new();
        proof {
            assert(query_rows(out@) =~= Seq::empty());
        }
        FindScan { out, limit, after: None }
    }

    /// Whether enough has been found.
    pub fn is_done(&self) -> (r: bool)
        ensures
            r == (self.out@.len() >= self.limit),
    {
        self.out.len() >= self.limit
    }

    /// Takes the document under the next key. Once enough has been found,
    /// nothing is taken any more.
    pub fn take(&mut self, filter: &Filter, item: Listed)
        ensures
            final(self).limit == old(self).limit,
            query_rows(final(self).out@) == found(
                query_rows(old(self).out@),
                filter@,
                item@,
                old(self).limit as nat,
            ),
            final(self).after is Some,
            final(self).after->0@ == item.key@,
    {
        let ghost before = query_rows(self.out@);
        proof {
            assert(before.len() == self.out@.len());
        }
        self.after = Some(item.key.clone());
        if self.out.len() < self.limit {
            if let Some(value) = item.value {
                if filter.matches(&value) {
                    self.out.push(QueryRow { key: item.key, value });
                    proof {
                        assert(query_rows(self.out@) =~= before.push(
                            self.out@[self.out@.len() - 1]@,
                        ));
                    }
                }
            }
        }
    }
}

/// The name of the collection with an id, in a listing.
pub fn name_of_collection(listed: &Vec<CollectionInfo>, id: &CollectionId, shown: &str) -> (r:
    Result<String, Error>)
    ensures
        match r {
            Ok(name) => exists|i: int|
                {
                    &&& 0 <= i < listed@.len()
                    &&& (#[trigger] listed@[i]).collection_id == *id
                    &&& name@ == listed@[i].name@
                    &&& forall|k: int| 0 <= k < i ==> (#[trigger] listed@[k]).collection_id != *id
                },
            Err(e) => (forall|k: int|
                0 <= k < listed@.len() ==> (#[trigger] listed@[k]).collection_id != *id) && e@
                == ErrorView::QueryInvalid(
                "open_collection_by_id: unknown collection "@ + shown@,
            ),
        },
{
    for i in 0..listed.len()
        invariant
            forall|k: int| 0 <= k < i ==> (#[trigger] listed@[k]).collection_id != *id,
    {
        if same16(&listed[i].collection_id.0, &id.0) {
            return Ok(listed[i].name.clone());
        }
    }
    Err(Error::QueryInvalid(cat2("open_collection_by_id: unknown collection ", shown)))
}

/// Checks that the collection opened by name is the one that was meant.
pub fn check_opened(
    name: &str,
    opened: &CollectionId,
    want: &CollectionId,
    opened_shown: &str,
    want_shown: &str,
) -> (r: Result<(), Error>)
    ensures
        match r {
            Ok(_) => *opened == *want,
            Err(e) => *opened != *want && e@ == ErrorView::QueryInvalid(
                "collection id mismatch for `"@ + name@ + "`: opened "@ + opened_shown@ + (
                ", want "@ + want_shown@),
            ),
        },
{
    if same16(&opened.0, &want.0) {
        return Ok(());
    }
    let tail = cat2(", want ", want_shown);
    Err(
        Error::QueryInvalid(
            cat5(
                "collection id mismatch for `",
                name,
                "`: opened ",
                opened_shown,
                tail.as_str(),
            ),
        ),
    )
}

/// What a read of one document is to a query host. `store_hole` is the hole
/// that a store failure stands for, where it stands for one.
pub open spec fn covered_read(
    read: Result<Option<JsonView>, ErrorView>,
    store_hole: Option<Seq<char>>,
) -> Result<HostDocumentView, ErrorView> {
    match read {
        Ok(Some(value)) => Ok(HostDocumentView::Present { value, logical_bytes: None }),
        Ok(None) => Ok(HostDocumentView::Absent),
        Err(e) => match e {
            ErrorView::Store(_) => match store_hole {
                Some(code) => Ok(HostDocumentView::Hole { code }),
                None => Err(e),
            },
            _ => {
                let code = code_of(e);
                if code == ErrorCode::DataDamaged || code == ErrorCode::PayloadPartial || code
                    == ErrorCode::CoverageIncomplete || code == ErrorCode::TypeMismatch {
                    Ok(HostDocumentView::Hole { code: code.name() })
                } else {
                    Err(e)
                }
            },
        },
    }
}

/// Tells a hole from a failure.
pub fn covered_document(read: Result<Option<Json>, Error>, store_hole: Option<String>) -> (r: Result<
    HostDocument,
    Error,
>)
    ensures
        outcome(r) == covered_read(
            match read {
                Ok(Some(v)) => Ok(Some(v@)),
                Ok(None) => Ok(None),
                Err(e) => Err(e@),
            },
            match store_hole {
                Some(h) => Some(h@),
                None => None,
            },
        ),
{
    match read {
        Ok(Some(value)) => Ok(
            HostDocument::Present { value: Arc::new(value), logical_bytes: None },
        ),
        Ok(None) => Ok(HostDocument::Absent),
        Err(Error::Store(e)) => match store_hole {
            Some(code) => Ok(HostDocument::Hole { code }),
            None => Err(Error::Store(e)),
        },
        Err(e) => {
            let code = e.code();
            if code == ErrorCode::DataDamaged || code == ErrorCode::PayloadPartial || code
                == ErrorCode::CoverageIncomplete || code == ErrorCode::TypeMismatch {
                Ok(HostDocument::Hole { code: code.as_str().to_string() })
            } else {
                Err(e)
            }
        },
    }
}

/// Checks that the root of a Full query is in the heap's catalogue.
pub fn check_root(listed: &Vec<CollectionInfo>, root: &CollectionId, shown: &str) -> (r: Result<
    (),
    Error,
>)
    ensures
        match r {
            Ok(_) => exists|i: int|
                0 <= i < listed@.len() && (#[trigger] listed@[i]).collection_id == *root,
            Err(e) => (forall|k: int|
                0 <= k < listed@.len() ==> (#[trigger] listed@[k]).collection_id != *root) && e@
                == ErrorView::QueryInvalid(
                "Full RQL root collection "@ + shown@
                    + " is outside the authorised Heap catalogue"@,
            ),
        },
{
    for i in 0..listed.len()
        invariant
            forall|k: int| 0 <= k < i ==> (#[trigger] listed@[k]).collection_id != *root,
    {
        if same16(&listed[i].collection_id.0, &root.0) {
            return Ok(());
        }
    }
    Err(
        Error::QueryInvalid(
            cat3(
                "Full RQL root collection ",
                shown,
                " is outside the authorised Heap catalogue",
            ),
        ),
    )
}

/// Checks that a read view and a heap handle are of the same heap.
pub fn check_view_heap(view_heap: &HeapId, heap: &HeapId) -> (r: Result<(), Error>)
    ensures
        match r {
            Ok(_) => *view_heap == *heap,
            Err(e) => *view_heap != *heap && e@ == ErrorView::ConsistencyViolation(
                "read view heap_id does not match HeapClient; refuse view-bound open"@,
            ),
        },
{
    if same16(&view_heap.0, &heap.0) {
        Ok(())
    } else {
        Err(
            Error::ConsistencyViolation(
                "read view heap_id does not match HeapClient; refuse view-bound open".to_string(),
            ),
        )
    }
}

} // verus!
