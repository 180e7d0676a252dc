//! Named collections of a database: what a handle asks of the place where the
//! database is.
//!
//! Names, keys and bodies are judged and encoded by the rules of the store;
//! those verdicts are arguments here. A verdict on a subject is looked at only
//! where the handle itself addresses the store.
use crate::app_v1::DurabilityMode;
use crate::app_wire::IndexInfo;
use crate::cluster_backend::{ClusterFindResult, FindCoverage};
use crate::covered_reads::copy_bytes;
use crate::dialects::{compile_dialect, dialect_of, unknown_dialect, SdaParse};
use crate::error::{outcome, Error, ErrorView};
use crate::indexes::{check_continues, find_by_name, index_not_found, IndexMeta, IndexState};
use crate::json::{Json, JsonView};
use crate::portable_find::{dialect_run, run_of, DialectRun};
use crate::text::texts;
use vstd::prelude::*;

verus! {

/// Where a database is.
#[derive(Debug, Clone, Copy, PartialEq, Eq, Structural)]
pub enum Site {
    /// In a store of this process.
    Local,
    /// At a server.
    Remote,
    /// In a cluster.
    Cluster,
}

/// What is asked of the place where a database is.
#[derive(Debug)]
pub enum Request {
    /// Write a body under a subject, and mark the indexes stale.
    StorePut {
        /// Subject.
        subject: Vec<u8>,
        /// Body.
        body: Vec<u8>,
        /// Durability.
        durability: DurabilityMode,
    },
    /// Put a document.
    PutJson {
        /// Key.
        key: String,
        /// Document.
        value: Json,
        /// Durability.
        durability: DurabilityMode,
    },
    /// Put bytes.
    PutBytes {
        /// Key.
        key: String,
        /// Bytes.
        bytes: Vec<u8>,
        /// Durability.
        durability: DurabilityMode,
    },
    /// Read the body of a subject.
    StoreGet {
        /// Subject.
        subject: Vec<u8>,
    },
    /// Get a document.
    GetJson {
        /// Key.
        key: String,
    },
    /// Get bytes.
    GetBytes {
        /// Key.
        key: String,
    },
    /// Read the payload of a subject, as far as it is there.
    StoreGetPayload {
        /// Subject.
        subject: Vec<u8>,
    },
    /// Get a payload, as far as it is there.
    GetPayload {
        /// Key.
        key: String,
    },
    /// Look whether a subject is there, delete it, and mark the indexes stale.
    StoreDelete {
        /// Subject.
        subject: Vec<u8>,
        /// Durability.
        durability: DurabilityMode,
    },
    /// Delete a key.
    Delete {
        /// Key.
        key: String,
        /// Durability.
        durability: DurabilityMode,
    },
    /// Read the history of a subject.
    StoreHistory {
        /// Subject.
        subject: Vec<u8>,
    },
    /// Read the history of a key.
    History {
        /// Key.
        key: String,
    },
    /// Read the payload that an event wrote.
    StoreGetVersion {
        /// Subject.
        subject: Vec<u8>,
        /// Event.
        event_id: [u8; 16],
    },
    /// Look for the newest complete payload before the current one.
    StoreFindLastComplete {
        /// Subject.
        subject: Vec<u8>,
    },
    /// Read a page of what stands under a prefix.
    StorePage {
        /// Prefix.
        prefix: Vec<u8>,
        /// Entries per page.
        page_size: usize,
        /// Where the page goes on.
        continuation: Option<Vec<u8>>,
    },
    /// List every key.
    ListKeys,
}

/// Model of a [`Request`].
#[verifier::ext_equal]
#[allow(inconsistent_fields)]
pub enum RequestView {
    StorePut { subject: Seq<u8>, body: Seq<u8>, durability: DurabilityMode },
    PutJson { key: Seq<char>, value: JsonView, durability: DurabilityMode },
    PutBytes { key: Seq<char>, bytes: Seq<u8>, durability: DurabilityMode },
    StoreGet { subject: Seq<u8> },
    GetJson { key: Seq<char> },
    GetBytes { key: Seq<char> },
    StoreGetPayload { subject: Seq<u8> },
    GetPayload { key: Seq<char> },
    StoreDelete { subject: Seq<u8>, durability: DurabilityMode },
    Delete { key: Seq<char>, durability: DurabilityMode },
    StoreHistory { subject: Seq<u8> },
    History { key: Seq<char> },
    StoreGetVersion { subject: Seq<u8>, event_id: [u8; 16] },
    StoreFindLastComplete { subject: Seq<u8> },
    StorePage { prefix: Seq<u8>, page_size: usize, continuation: Option<Seq<u8>> },
    ListKeys,
}

/// Bytes that may be absent.
pub open spec fn bytes_view(b: Option<Vec<u8>>) -> Option<Seq<u8>> {
    match b {
        Some(v) => Some(v@),
        None => None,
    }
}

/// Borrowed bytes that may be absent.
pub open spec fn slice_view(b: Option<&[u8]>) -> Option<Seq<u8>> {
    match b {
        Some(v) => Some(v@),
        None => None,
    }
}

impl View for Request {
    type V = RequestView;

    open spec fn view(&self) -> RequestView {
        match self {
            Request::StorePut { subject, body, durability } => RequestView::StorePut {
                subject: subject@,
                body: body@,
                durability: *durability,
            },
            Request::PutJson { key, value, durability } => RequestView::PutJson {
                key: key@,
                value: value@,
                durability: *durability,
            },
            Request::PutBytes { key, bytes, durability } => RequestView::PutBytes {
                key: key@,
                bytes: bytes@,
                durability: *durability,
            },
            Request::StoreGet { subject } => RequestView::StoreGet { subject: subject@ },
            Request::GetJson { key } => RequestView::GetJson { key: key@ },
            Request::GetBytes { key } => RequestView::GetBytes { key: key@ },
            Request::StoreGetPayload { subject } => RequestView::StoreGetPayload {
                subject: subject@,
            },
            Request::GetPayload { key } => RequestView::GetPayload { key: key@ },
            Request::StoreDelete { subject, durability } => RequestView::StoreDelete {
                subject: subject@,
                durability: *durability,
            },
            Request::Delete { key, durability } => RequestView::Delete {
                key: key@,
                durability: *durability,
            },
            Request::StoreHistory { subject } => RequestView::StoreHistory { subject: subject@ },
            Request::History { key } => RequestView::History { key: key@ },
            Request::StoreGetVersion { subject, event_id } => RequestView::StoreGetVersion {
                subject: subject@,
                event_id: *event_id,
            },
            Request::StoreFindLastComplete { subject } => RequestView::StoreFindLastComplete {
                subject: subject@,
            },
            Request::StorePage { prefix, page_size, continuation } => RequestView::StorePage {
                prefix: prefix@,
                page_size: *page_size,
                continuation: bytes_view(*continuation),
            },
            Request::ListKeys => RequestView::ListKeys,
        }
    }
}

/// What the store says of a document that is to be put.
#[derive(Debug)]
pub struct PutVerdicts {
    /// Whether it is too deep.
    pub depth: Result<(), Error>,
    /// The subject of its key.
    pub subject: Result<Vec<u8>, Error>,
    /// Its body.
    pub body: Result<Vec<u8>, Error>,
    /// Whether the body is too long.
    pub length: Result<(), Error>,
}

/// The put of a document that is asked, or the first refusal: of a value that
/// does not serialize, of a depth, and on a store of this process of a key, of
/// an encoding and of a length.
pub open spec fn put_asked(
    site: Site,
    key: Seq<char>,
    value: Result<Json, String>,
    verdicts: PutVerdicts,
    durability: DurabilityMode,
) -> Result<RequestView, ErrorView> {
    match value {
        Err(m) => Err(ErrorView::InvalidJson(m@)),
        Ok(value) => match outcome(verdicts.depth) {
            Err(e) => Err(e),
            Ok(_) => if site != Site::Local {
                Ok(RequestView::PutJson { key, value: value@, durability })
            } else {
                match (outcome(verdicts.subject), outcome(verdicts.body), outcome(verdicts.length)) {
                    (Err(e), _, _) => Err(e),
                    (_, Err(e), _) => Err(e),
                    (_, _, Err(e)) => Err(e),
                    (Ok(subject), Ok(body), Ok(_)) => Ok(
                        RequestView::StorePut { subject, body, durability },
                    ),
                }
            },
        },
    }
}

/// What is asked about a key: by its subject on a store of this process, by the
/// key elsewhere.
pub open spec fn asked_of(
    site: Site,
    subject: Result<Seq<u8>, ErrorView>,
    local: spec_fn(Seq<u8>) -> RequestView,
    elsewhere: RequestView,
) -> Result<RequestView, ErrorView> {
    if site == Site::Local {
        match subject {
            Err(e) => Err(e),
            Ok(s) => Ok(local(s)),
        }
    } else {
        Ok(elsewhere)
    }
}

/// What is asked of a store of this process only. A name that is none is
/// refused before the place is.
pub open spec fn asked_here(
    site: Site,
    judged: Result<Seq<u8>, ErrorView>,
    refusal: Seq<char>,
    local: spec_fn(Seq<u8>) -> RequestView,
) -> Result<RequestView, ErrorView> {
    match judged {
        Err(e) => Err(e),
        Ok(s) => if site == Site::Local {
            Ok(local(s))
        } else {
            Err(ErrorView::RemoteUnsupported(refusal))
        },
    }
}

/// Handle on a named collection.
#[derive(Debug)]
pub struct Collection {
    site: Site,
    name: String,
}

impl Collection {
    /// Where the database is.
    pub closed spec fn place(&self) -> Site {
        self.site
    }

    /// The name.
    pub closed spec fn label(&self) -> Seq<char> {
        self.name@
    }

    /// A handle. Nothing is read or written yet.
    pub fn new(site: Site, name: String) -> (r: Collection)
        ensures
            r.place() == site,
            r.label() == name@,
    {
        Collection { site, name }
    }

    /// Name.
    pub fn name(&self) -> (r: &str)
        ensures
            r@ == self.label(),
    {
        self.name.as_str()
    }

    /// The durable id of the store, which a portable query is bound to. `id` is
    /// what the store says.
    pub fn durable_store_id_bytes(&self, id: [u8; 16]) -> (r: Result<[u8; 16], Error>)
        ensures
            match r {
                Ok(v) => v == id && self.place() != Site::Cluster && id@ != Seq::new(
                    16,
                    |i: int| 0u8,
                ),
                Err(e) => if self.place() == Site::Cluster {
                    e@ == ErrorView::RemoteUnsupported(
                        "portable dialect durable store id (cluster)"@,
                    )
                } else {
                    id@ == Seq::new(16, |i: int| 0u8) && e@ == ErrorView::QueryInvalid(
                        "portable dialect requires non-zero durable store_id (Q0.A6)"@,
                    )
                },
            },
    {
        match self.site {
            Site::Cluster => Err(
                Error::RemoteUnsupported("portable dialect durable store id (cluster)"),
            ),
            _ => crate::portable_find::durable_store_id_bytes(id),
        }
    }

    /// Refuses what only a store of this process can do.
    pub fn local_store(&self, refusal: &'static str) -> (r: Result<(), Error>)
        ensures
            match r {
                Ok(_) => self.place() == Site::Local,
                Err(e) => self.place() != Site::Local && e@ == ErrorView::RemoteUnsupported(
                    refusal@,
                ),
            },
    {
        match self.site {
            Site::Local => Ok(()),
            _ => Err(Error::RemoteUnsupported(refusal)),
        }
    }

    /// Puts a document, durably. `value` is what the value serializes to.
    pub fn put(&self, key: &str, value: Result<Json, String>, verdicts: PutVerdicts) -> (r: Result<
        Request,
        Error,
    >)
        ensures
            outcome(r) == put_asked(self.place(), key@, value, verdicts, DurabilityMode::Durable),
    {
        self.put_with(key, value, verdicts, DurabilityMode::Durable)
    }

    /// Puts a document.
    pub fn put_with(
        &self,
        key: &str,
        value: Result<Json, String>,
        verdicts: PutVerdicts,
        durability: DurabilityMode,
    ) -> (r: Result<Request, Error>)
        ensures
            outcome(r) == put_asked(self.place(), key@, value, verdicts, durability),
    {
        let value = match value {
            Ok(value) => value,
            Err(m) => return Err(Error::InvalidJson(m)),
        };
        verdicts.depth?;
        match self.site {
            Site::Local => {
                let subject = verdicts.subject?;
                let body = verdicts.body?;
                verdicts.length?;
                Ok(Request::StorePut { subject, body, durability })
            },
            _ => Ok(Request::PutJson { key: key.to_string(), value, durability }),
        }
    }

    /// Puts bytes, durably.
    pub fn put_bytes(
        &self,
        key: &str,
        bytes: &[u8],
        length: Result<(), Error>,
        subject: Result<Vec<u8>, Error>,
        body: Vec<u8>,
    ) -> (r: Result<Request, Error>)
        ensures
            outcome(r) == (match outcome(length) {
                Err(e) => Err(e),
                Ok(_) => asked_of(
                    self.place(),
                    outcome(subject),
                    |s: Seq<u8>|
                        RequestView::StorePut {
                            subject: s,
                            body: body@,
                            durability: DurabilityMode::Durable,
                        },
                    RequestView::PutBytes {
                        key: key@,
                        bytes: bytes@,
                        durability: DurabilityMode::Durable,
                    },
                ),
            }),
    {
        self.put_bytes_with(key, bytes, length, subject, body, DurabilityMode::Durable)
    }

    /// Puts bytes. `length` is the verdict on the length of the body, and `body`
    /// what the bytes are stored as.
    pub fn put_bytes_with(
        &self,
        key: &str,
        bytes: &[u8],
        length: Result<(), Error>,
        subject: Result<Vec<u8>, Error>,
        body: Vec<u8>,
        durability: DurabilityMode,
    ) -> (r: Result<Request, Error>)
        ensures
            outcome(r) == (match outcome(length) {
                Err(e) => Err(e),
                Ok(_) => asked_of(
                    self.place(),
                    outcome(subject),
                    |s: Seq<u8>| RequestView::StorePut { subject: s, body: body@, durability },
                    RequestView::PutBytes { key: key@, bytes: bytes@, durability },
                ),
            }),
    {
        length?;
        match self.site {
            Site::Local => Ok(Request::StorePut { subject: subject?, body, durability }),
            _ => Ok(Request::PutBytes { key: key.to_string(), bytes: copy_bytes(bytes), durability }),
        }
    }

    /// Gets a document.
    pub fn get(&self, key: &str, subject: Result<Vec<u8>, Error>) -> (r: Result<Request, Error>)
        ensures
            outcome(r) == asked_of(
                self.place(),
                outcome(subject),
                |s: Seq<u8>| RequestView::StoreGet { subject: s },
                RequestView::GetJson { key: key@ },
            ),
    {
        match self.site {
            Site::Local => Ok(Request::StoreGet { subject: subject? }),
            _ => Ok(Request::GetJson { key: key.to_string() }),
        }
    }

    /// Gets bytes.
    pub fn get_bytes(&self, key: &str, subject: Result<Vec<u8>, Error>) -> (r: Result<Request, Error>)
        ensures
            outcome(r) == asked_of(
                self.place(),
                outcome(subject),
                |s: Seq<u8>| RequestView::StoreGet { subject: s },
                RequestView::GetBytes { key: key@ },
            ),
    {
        match self.site {
            Site::Local => Ok(Request::StoreGet { subject: subject? }),
            _ => Ok(Request::GetBytes { key: key.to_string() }),
        }
    }

    /// Gets a payload, as far as it is there. A cluster does not give one.
    pub fn get_payload(&self, key: &str, subject: Result<Vec<u8>, Error>) -> (r: Result<
        Request,
        Error,
    >)
        ensures
            outcome(r) == (if self.place() == Site::Cluster {
                Err(ErrorView::RemoteUnsupported("get_payload on cluster (use get)"@))
            } else {
                asked_of(
                    self.place(),
                    outcome(subject),
                    |s: Seq<u8>| RequestView::StoreGetPayload { subject: s },
                    RequestView::GetPayload { key: key@ },
                )
            }),
    {
        match self.site {
            Site::Local => Ok(Request::StoreGetPayload { subject: subject? }),
            Site::Remote => Ok(Request::GetPayload { key: key.to_string() }),
            Site::Cluster => Err(Error::RemoteUnsupported("get_payload on cluster (use get)")),
        }
    }

    /// Deletes a key, durably.
    pub fn delete(&self, key: &str, subject: Result<Vec<u8>, Error>) -> (r: Result<Request, Error>)
        ensures
            outcome(r) == asked_of(
                self.place(),
                outcome(subject),
                |s: Seq<u8>|
                    RequestView::StoreDelete { subject: s, durability: DurabilityMode::Durable },
                RequestView::Delete { key: key@, durability: DurabilityMode::Durable },
            ),
    {
        self.delete_with(key, subject, DurabilityMode::Durable)
    }

    /// Deletes a key.
    pub fn delete_with(
        &self,
        key: &str,
        subject: Result<Vec<u8>, Error>,
        durability: DurabilityMode,
    ) -> (r: Result<Request, Error>)
        ensures
            outcome(r) == asked_of(
                self.place(),
                outcome(subject),
                |s: Seq<u8>| RequestView::StoreDelete { subject: s, durability },
                RequestView::Delete { key: key@, durability },
            ),
    {
        match self.site {
            Site::Local => Ok(Request::StoreDelete { subject: subject?, durability }),
            _ => Ok(Request::Delete { key: key.to_string(), durability }),
        }
    }

    /// Reads the history of a key.
    pub fn history(&self, key: &str, subject: Result<Vec<u8>, Error>) -> (r: Result<Request, Error>)
        ensures
            outcome(r) == asked_of(
                self.place(),
                outcome(subject),
                |s: Seq<u8>| RequestView::StoreHistory { subject: s },
                RequestView::History { key: key@ },
            ),
    {
        match self.site {
            Site::Local => Ok(Request::StoreHistory { subject: subject? }),
            _ => Ok(Request::History { key: key.to_string() }),
        }
    }

    /// Reads the value that an event wrote.
    pub fn get_version(&self, subject: Result<Vec<u8>, Error>, event_id: [u8; 16]) -> (r: Result<
        Request,
        Error,
    >)
        ensures
            outcome(r) == asked_here(
                self.place(),
                outcome(subject),
                "get_version (embedded only)"@,
                |s: Seq<u8>| RequestView::StoreGetVersion { subject: s, event_id },
            ),
    {
        let subject = subject?;
        self.local_store("get_version (embedded only)")?;
        Ok(Request::StoreGetVersion { subject, event_id })
    }

    /// Looks for the newest complete value before the current one.
    pub fn find_last_complete(&self, subject: Result<Vec<u8>, Error>) -> (r: Result<Request, Error>)
        ensures
            outcome(r) == asked_here(
                self.place(),
                outcome(subject),
                "find_last_complete (embedded only)"@,
                |s: Seq<u8>| RequestView::StoreFindLastComplete { subject: s },
            ),
    {
        let subject = subject?;
        self.local_store("find_last_complete (embedded only)")?;
        Ok(Request::StoreFindLastComplete { subject })
    }

    /// Lists every key. A store of this process is read page by page, the
    /// others are asked once.
    pub fn scan_keys(&self, prefix: Result<Vec<u8>, Error>, default_page: usize) -> (r: Result<
        Request,
        Error,
    >)
        ensures
            outcome(r) == asked_of(
                self.place(),
                outcome(prefix),
                |p: Seq<u8>|
                    RequestView::StorePage {
                        prefix: p,
                        page_size: default_page,
                        continuation: None,
                    },
                RequestView::ListKeys,
            ),
    {
        match self.site {
            Site::Local => self.scan_keys_page(prefix, default_page, None),
            _ => Ok(Request::ListKeys),
        }
    }

    /// Reads a page of keys.
    pub fn scan_keys_page(
        &self,
        prefix: Result<Vec<u8>, Error>,
        page_size: usize,
        continuation: Option<&[u8]>,
    ) -> (r: Result<Request, Error>)
        ensures
            outcome(r) == page_asked(
                self.place(),
                outcome(prefix),
                "scan_keys_page (embedded only)"@,
                page_size,
                slice_view(continuation),
            ),
    {
        self.page(prefix, "scan_keys_page (embedded only)", page_size, continuation)
    }

    /// Reads a page of documents, with what could not be read.
    pub fn scan_json_partial_page(
        &self,
        prefix: Result<Vec<u8>, Error>,
        page_size: usize,
        continuation: Option<&[u8]>,
    ) -> (r: Result<Request, Error>)
        ensures
            outcome(r) == page_asked(
                self.place(),
                outcome(prefix),
                "scan_json_partial_page (embedded only)"@,
                page_size,
                slice_view(continuation),
            ),
    {
        self.page(prefix, "scan_json_partial_page (embedded only)", page_size, continuation)
    }

    /// Reads a page of documents.
    pub fn scan_json_page(
        &self,
        prefix: Result<Vec<u8>, Error>,
        page_size: usize,
        continuation: Option<&[u8]>,
    ) -> (r: Result<Request, Error>)
        ensures
            outcome(r) == page_asked(
                self.place(),
                outcome(prefix),
                "scan_json_page (embedded only)"@,
                page_size,
                slice_view(continuation),
            ),
    {
        self.page(prefix, "scan_json_page (embedded only)", page_size, continuation)
    }

    /// Begins a walk over all documents, in pages of a size between one and
    /// `max_page`.
    pub fn scan_json_iter_paged(
        &self,
        prefix: Result<Vec<u8>, Error>,
        page_size: usize,
        max_page: usize,
    ) -> (r: Result<Request, Error>)
        ensures
            outcome(r) == page_asked(
                self.place(),
                outcome(prefix),
                "scan_json_iter (embedded only)"@,
                if page_size < 1 || max_page < 1 {
                    1
                } else if page_size > max_page {
                    max_page
                } else {
                    page_size
                },
                None,
            ),
    {
        let size: usize = if page_size < 1 || max_page < 1 {
            1
        } else if page_size > max_page {
            max_page
        } else {
            page_size
        };
        self.page(prefix, "scan_json_iter (embedded only)", size, None)
    }

    fn page(
        &self,
        prefix: Result<Vec<u8>, Error>,
        refusal: &'static str,
        page_size: usize,
        continuation: Option<&[u8]>,
    ) -> (r: Result<Request, Error>)
        ensures
            outcome(r) == page_asked(
                self.place(),
                outcome(prefix),
                refusal@,
                page_size,
                slice_view(continuation),
            ),
    {
        let prefix = prefix?;
        self.local_store(refusal)?;
        let continuation = match continuation {
            Some(c) => Some(copy_bytes(c)),
            None => None,
        };
        Ok(Request::StorePage { prefix, page_size, continuation })
    }

    /// Compiles a query of a builtin dialect and decides how it is run.
    pub fn find_dialect(dialect: &str, source: &str, parse: &SdaParse) -> (r: Result<
        DialectRun,
        Error,
    >)
        ensures
            outcome(r) == (match dialect_of(dialect@) {
                None => Err(unknown_dialect(Seq::empty(), dialect@)),
                Some(d) => match d.compiled(source@, *parse) {
                    Err(e) => Err(e),
                    Ok(compiled) => Ok(run_of(compiled)),
                },
            }),
    {
        Ok(dialect_run(compile_dialect(dialect, source, parse)?))
    }

    /// What a find that tells its coverage gives for the rows of a store or of
    /// a server, which cover everything.
    pub fn find_with_coverage(rows: Vec<(String, Json)>) -> (r: ClusterFindResult)
        ensures
            r.rows == rows,
            r.coverage == (FindCoverage {
                incomplete: false,
                resource_limit_reached: false,
                unavailable: 0,
                completed: 0,
                requested: 0,
            }),
            r.query_id@ == "local-or-remote"@,
            !r.truncated,
            !r.has_more,
            r.continuation is None,
    {
        ClusterFindResult {
            rows,
            coverage: FindCoverage {
                incomplete: false,
                resource_limit_reached: false,
                unavailable: 0,
                completed: 0,
                requested: 0,
            },
            query_id: "local-or-remote".to_string(),
            truncated: false,
            has_more: false,
            continuation: None,
        }
    }

    /// The manager of the collection's indexes.
    pub fn indexes(&self) -> (r: Indexes)
        ensures
            r.place() == self.place(),
            r.label() == self.label(),
    {
        Indexes { site: self.site, collection: self.name.clone() }
    }
}

/// The page that is asked of a store of this process.
pub open spec fn page_asked(
    site: Site,
    prefix: Result<Seq<u8>, ErrorView>,
    refusal: Seq<char>,
    page_size: usize,
    continuation: Option<Seq<u8>>,
) -> Result<RequestView, ErrorView> {
    asked_here(
        site,
        prefix,
        refusal,
        |p: Seq<u8>| RequestView::StorePage { prefix: p, page_size, continuation },
    )
}

/// Why a cluster has no indexes.
pub const CLUSTER_INDEXES: &'static str = "secondary indexes on cluster (Stage 8e+)";

/// Why a server does not continue a build.
pub const REMOTE_BUILDS: &'static str =
    "continue_build is embedded-only; remote create/rebuild resume server-side";

/// What is asked of the keeper of indexes.
#[derive(Debug)]
pub enum IndexRequest {
    /// Build an index over fields. A store of this process decides with
    /// [`crate::indexes::start_build`] how.
    Build {
        /// Name.
        name: String,
        /// Fields in order.
        fields: Vec<String>,
        /// Whether a build under way is not gone on with.
        force_rebuild: bool,
    },
    /// Have an index built anew.
    Rebuild {
        /// Name.
        name: String,
    },
    /// List the indexes.
    List,
    /// Delete an index.
    Drop {
        /// Name.
        name: String,
    },
}

/// Model of an [`IndexRequest`].
#[verifier::ext_equal]
#[allow(inconsistent_fields)]
pub enum IndexRequestView {
    Build { name: Seq<char>, fields: Seq<Seq<char>>, force_rebuild: bool },
    Rebuild { name: Seq<char> },
    List,
    Drop { name: Seq<char> },
}

impl View for IndexRequest {
    type V = IndexRequestView;

    open spec fn view(&self) -> IndexRequestView {
        match self {
            IndexRequest::Build { name, fields, force_rebuild } => IndexRequestView::Build {
                name: name@,
                fields: texts(fields@),
                force_rebuild: *force_rebuild,
            },
            IndexRequest::Rebuild { name } => IndexRequestView::Rebuild { name: name@ },
            IndexRequest::List => IndexRequestView::List,
            IndexRequest::Drop { name } => IndexRequestView::Drop { name: name@ },
        }
    }
}

/// Manager of the indexes of a named collection.
#[derive(Debug)]
pub struct Indexes {
    site: Site,
    collection: String,
}

impl Indexes {
    /// Where the database is.
    pub closed spec fn place(&self) -> Site {
        self.site
    }

    /// The name of the collection.
    pub closed spec fn label(&self) -> Seq<char> {
        self.collection@
    }

    /// The name of the collection.
    pub fn collection(&self) -> (r: &str)
        ensures
            r@ == self.label(),
    {
        self.collection.as_str()
    }

    /// Builds an index, or goes on with a build that was interrupted.
    pub fn create(&self, name: &str, fields: Vec<String>) -> (r: Result<IndexRequest, Error>)
        ensures
            outcome(r) == (if self.place() == Site::Cluster {
                Err(ErrorView::RemoteUnsupported(CLUSTER_INDEXES@))
            } else {
                Ok(
                    IndexRequestView::Build {
                        name: name@,
                        fields: texts(fields@),
                        force_rebuild: false,
                    },
                )
            }),
    {
        match self.site {
            Site::Cluster => Err(Error::RemoteUnsupported(CLUSTER_INDEXES)),
            _ => Ok(
                IndexRequest::Build { name: name.to_string(), fields, force_rebuild: false },
            ),
        }
    }

    /// Lists the indexes. A cluster has none, and is not asked.
    pub fn list(&self) -> (r: Option<IndexRequest>)
        ensures
            match r {
                Some(q) => self.place() != Site::Cluster && q is List,
                None => self.place() == Site::Cluster,
            },
    {
        match self.site {
            Site::Cluster => None,
            _ => Some(IndexRequest::List),
        }
    }

    /// The index of a name in a listing.
    pub fn get(listed: Vec<IndexInfo>, name: &str) -> (r: Option<IndexInfo>)
        ensures
            match r {
                Some(x) => exists|i: int|
                    {
                        &&& 0 <= i < listed@.len()
                        &&& #[trigger] listed@[i] == x
                        &&& x.name@ == name@
                        &&& forall|j: int| 0 <= j < i ==> (#[trigger] listed@[j]).name@ != name@
                    },
                None => forall|j: int|
                    0 <= j < listed@.len() ==> (#[trigger] listed@[j]).name@ != name@,
            },
    {
        let at = find_by_name(&listed, name)?;
        let mut listed = listed;
        Some(listed.swap_remove(at))
    }

    /// Deletes an index; the documents stay.
    pub fn drop(&self, name: &str) -> (r: Result<IndexRequest, Error>)
        ensures
            outcome(r) == (if self.place() == Site::Cluster {
                Err(ErrorView::RemoteUnsupported(CLUSTER_INDEXES@))
            } else {
                Ok(IndexRequestView::Drop { name: name@ })
            }),
    {
        match self.site {
            Site::Cluster => Err(Error::RemoteUnsupported(CLUSTER_INDEXES)),
            _ => Ok(IndexRequest::Drop { name: name.to_string() }),
        }
    }

    /// Builds an index anew from the live documents. `existing` is what a store
    /// of this process holds under the name.
    pub fn rebuild(&self, name: &str, existing: Option<IndexMeta>) -> (r: Result<
        IndexRequest,
        Error,
    >)
        ensures
            outcome(r) == (match self.place() {
                Site::Cluster => Err(ErrorView::RemoteUnsupported(CLUSTER_INDEXES@)),
                Site::Remote => Ok(IndexRequestView::Rebuild { name: name@ }),
                Site::Local => match existing {
                    None => Err(ErrorView::QueryInvalid("index not found: "@ + name@)),
                    Some(m) => Ok(
                        IndexRequestView::Build {
                            name: name@,
                            fields: texts(m.fields@),
                            force_rebuild: true,
                        },
                    ),
                },
            }),
    {
        match self.site {
            Site::Cluster => Err(Error::RemoteUnsupported(CLUSTER_INDEXES)),
            Site::Remote => Ok(IndexRequest::Rebuild { name: name.to_string() }),
            Site::Local => match existing {
                None => Err(index_not_found(name)),
                Some(m) => Ok(
                    IndexRequest::Build {
                        name: name.to_string(),
                        fields: m.fields,
                        force_rebuild: true,
                    },
                ),
            },
        }
    }

    /// Goes on with a build that was interrupted.
    pub fn continue_build(&self, name: &str, existing: Option<IndexMeta>) -> (r: Result<
        IndexRequest,
        Error,
    >)
        ensures
            outcome(r) == (match self.place() {
                Site::Cluster => Err(ErrorView::RemoteUnsupported(CLUSTER_INDEXES@)),
                Site::Remote => Err(ErrorView::RemoteUnsupported(REMOTE_BUILDS@)),
                Site::Local => match existing {
                    None => Err(ErrorView::QueryInvalid("index not found: "@ + name@)),
                    Some(m) => if m.state == IndexState::Building || m.state
                        == IndexState::Rebuilding {
                        Ok(
                            IndexRequestView::Build {
                                name: name@,
                                fields: texts(m.fields@),
                                force_rebuild: false,
                            },
                        )
                    } else {
                        Err(
                            ErrorView::QueryInvalid(
                                "index "@ + name@ + " is not building (state="@ + m.state.name()
                                    + ")"@,
                            ),
                        )
                    },
                },
            }),
    {
        match self.site {
            Site::Cluster => Err(Error::RemoteUnsupported(CLUSTER_INDEXES)),
            Site::Remote => Err(Error::RemoteUnsupported(REMOTE_BUILDS)),
            Site::Local => {
                check_continues(&existing, name)?;
                match existing {
                    None => Err(index_not_found(name)),
                    Some(m) => Ok(
                        IndexRequest::Build {
                            name: name.to_string(),
                            fields: m.fields,
                            force_rebuild: false,
                        },
                    ),
                }
            },
        }
    }
}

} // verus!
