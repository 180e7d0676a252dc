//! Queries that the handles run themselves, and queries under a pinned view.
//!
//! A view is no snapshot: the documents are live. It only refuses a page where
//! the frontier that it was pinned at has moved, before the page or while it
//! was read. Whether the frontier stands, and whether the documents of a page
//! still count against the view's bound, is for the view to say; its verdicts
//! are arguments here.
use crate::app_calls::check_view_heap;
use crate::app_v1::{
    bound, Backend, CollectionClient, CollectionId, HeapId, QueryPage, QueryPageView,
    QueryRunOptions, COLLECTION_UNBOUND,
};
use crate::error::{outcome, Error, ErrorView};
use vstd::prelude::*;

verus! {

/// Why a query that is to be explained is not run.
pub const RUN_EXPLAIN: &'static str =
    "use CollectionQuery::explain or explain_rql; run executes rows";

/// Why a query under a view that is to be explained is not run.
pub const VIEW_EXPLAIN: &'static str = "use explain_rql; ViewBoundQuery::run executes rows";

impl CollectionClient {
    /// Decides whether a query that was built on the handle is run.
    pub fn run_query(&self, options: &QueryRunOptions) -> (r: Result<Backend, Error>)
        ensures
            match r {
                Ok(b) => b == self.target() && b != Backend::Unbound && !options.explain,
                Err(e) => if self.target() == Backend::Unbound {
                    e@ == ErrorView::Internal(COLLECTION_UNBOUND@)
                } else {
                    options.explain && e@ == ErrorView::QueryInvalid(RUN_EXPLAIN@)
                },
            },
    {
        let backend = bound(self.backend(), COLLECTION_UNBOUND)?;
        if options.explain {
            return Err(Error::QueryInvalid(RUN_EXPLAIN.to_string()));
        }
        Ok(backend)
    }

    /// The collection that a plan is run on. It is this one, also where the
    /// plan names another.
    pub fn plan_source(&self, _planned: CollectionId) -> (r: CollectionId)
        ensures
            r == self.collection(),
    {
        self.id()
    }

    /// Decides how a host call reads many documents: in one batch on a store of
    /// this process, one by one elsewhere.
    pub fn reads_in_batch(&self, asked: CollectionId) -> (r: Result<bool, Error>)
        ensures
            match r {
                Ok(batch) => asked == self.collection() && batch == (self.target()
                    == Backend::Embedded),
                Err(e) => asked != self.collection() && e@ == ErrorView::QueryInvalid(
                    "HostCapabilities: collection_id mismatch on CollectionClient"@,
                ),
            },
    {
        self.require_collection(asked)?;
        Ok(matches!(self.backend(), Backend::Embedded))
    }

    /// Decides whether a host call asks an index, a projection, an aggregate or
    /// a frontier: only a store of this process has them, and without them a
    /// query scans.
    pub fn asks_store(&self, asked: CollectionId) -> (r: Result<bool, Error>)
        ensures
            match r {
                Ok(ask) => asked == self.collection() && ask == (self.target()
                    == Backend::Embedded),
                Err(e) => asked != self.collection() && e@ == ErrorView::QueryInvalid(
                    "HostCapabilities: collection_id mismatch on CollectionClient"@,
                ),
            },
    {
        self.reads_in_batch(asked)
    }
}

/// Handle on a collection under a pinned view.
#[derive(Debug)]
pub struct ViewBoundCollection {
    inner: CollectionClient,
}

/// The page of a query under a view: refused where the view does not stand
/// before it or after it, or where its documents are too many for the view.
pub open spec fn page_under_view(
    before: Result<(), ErrorView>,
    page: Result<QueryPageView, ErrorView>,
    after: Result<(), ErrorView>,
    noted: Result<(), ErrorView>,
) -> Result<QueryPageView, ErrorView> {
    match (before, page, after, noted) {
        (Err(e), _, _, _) => Err(e),
        (_, Err(e), _, _) => Err(e),
        (_, _, Err(e), _) => Err(e),
        (_, _, _, Err(e)) => Err(e),
        (Ok(_), Ok(page), Ok(_), Ok(_)) => Ok(page),
    }
}

impl ViewBoundCollection {
    /// The handle under the view.
    pub closed spec fn client(&self) -> CollectionClient {
        self.inner
    }

    /// Opens a collection under a view: the view has to stand, and to be of the
    /// heap that the collection was opened in.
    pub fn open_collection(
        stable: Result<(), Error>,
        view_heap: HeapId,
        heap: HeapId,
        opened: Result<CollectionClient, Error>,
    ) -> (r: Result<ViewBoundCollection, Error>)
        ensures
            match r {
                Ok(c) => stable is Ok && view_heap == heap && opened == Ok::<
                    CollectionClient,
                    Error,
                >(c.client()),
                Err(e) => match stable {
                    Err(refused) => e == refused,
                    Ok(_) => if view_heap != heap {
                        e@ == ErrorView::ConsistencyViolation(
                            "read view heap_id does not match HeapClient; refuse view-bound open"@,
                        )
                    } else {
                        opened == Err::<CollectionClient, Error>(e)
                    },
                },
            },
    {
        stable?;
        check_view_heap(&view_heap, &heap)?;
        Ok(ViewBoundCollection { inner: opened? })
    }

    /// Collection id.
    pub fn id(&self) -> (r: CollectionId)
        ensures
            r == self.client().collection(),
    {
        self.inner.id()
    }

    /// Name.
    pub fn name(&self) -> (r: &str)
        ensures
            r@ == self.client().label(),
    {
        self.inner.name()
    }

    /// Heap id.
    pub fn heap_id(&self) -> (r: HeapId)
        ensures
            r == self.client().heap(),
    {
        self.inner.heap_id()
    }

    /// The handle under the view.
    pub fn inner(&self) -> (r: &CollectionClient)
        ensures
            *r == self.client(),
    {
        &self.inner
    }

    /// Gives a page out. `before` and `after` are what the view says of its
    /// frontier around the page; `noted` is what it says of the documents that
    /// the page examined.
    pub fn rql(
        before: Result<(), Error>,
        page: Result<QueryPage, Error>,
        after: Result<(), Error>,
        noted: Result<(), Error>,
    ) -> (r: Result<QueryPage, Error>)
        ensures
            outcome(r) == page_under_view(
                outcome(before),
                outcome(page),
                outcome(after),
                outcome(noted),
            ),
    {
        before?;
        let page = page?;
        after?;
        noted?;
        Ok(page)
    }

    /// Decides whether a query that was built under the view is run.
    pub fn run_query(stable: Result<(), Error>, options: &QueryRunOptions) -> (r: Result<(), Error>)
        ensures
            match r {
                Ok(_) => stable is Ok && !options.explain,
                Err(e) => match stable {
                    Err(refused) => e == refused,
                    Ok(_) => options.explain && e@ == ErrorView::QueryInvalid(VIEW_EXPLAIN@),
                },
            },
    {
        stable?;
        if options.explain {
            return Err(Error::QueryInvalid(VIEW_EXPLAIN.to_string()));
        }
        Ok(())
    }
}

/// No page is given out under a view whose frontier has moved.
pub proof fn law_moved_view_gives_no_page(
    before: Result<(), ErrorView>,
    page: Result<QueryPageView, ErrorView>,
    after: Result<(), ErrorView>,
    noted: Result<(), ErrorView>,
)
    requires
        before is Err || after is Err,
    ensures
        page_under_view(before, page, after, noted) is Err,
{
}

} // verus!
