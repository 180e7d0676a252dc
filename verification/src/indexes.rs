//! Secondary indexes: what is built, what is looked up, and when an index may
//! answer for a collection.
//!
//! Indexes are derived and deletable; a find is right without them. The store
//! keeps the postings and its progress. The functions here compute the keys,
//! decide how a build goes on after an interruption and when it is complete,
//! and choose an index for a filter.
use crate::app_wire::{IndexInfo, IndexInfoView};
use crate::codec::{hex_of, hex_text, push_text};
use crate::error::{Error, ErrorView, StoreErrorKind, StoreErrorKindView};
use crate::filter::{
    field_value, filter_matches, filter_models, resolve_path_value, Filter, FilterView, Pred,
    PredView,
};
use crate::json::{json_same, Json, JsonView};
use crate::json_text::{json_text, write_json};
use crate::text::{cat2, cat5, same_bytes, same_text, texts};
use vstd::prelude::*;

verus! {

/// Entries between two checkpoints of a build.
pub const BUILD_CHECKPOINT_EVERY: usize = 32;

/// Entries per page of a build.
pub const BUILD_PAGE_SIZE: usize = 64;

/// Failpoint behind the durable plan of a build.
pub const FP_INDEX_BUILD_AFTER_PLAN: &'static str = "index.build.after_plan";

/// Failpoint behind a checkpoint of a build.
pub const FP_INDEX_BUILD_MID: &'static str = "index.build.mid";

/// Failpoint before a build is marked ready.
pub const FP_INDEX_BUILD_BEFORE_READY: &'static str = "index.build.before_ready";

/// State of an index.
#[derive(Debug, Clone, Copy, PartialEq, Eq, Structural)]
pub enum IndexState {
    /// It is built for the first time.
    Building,
    /// It is built anew.
    Rebuilding,
    /// It holds every document.
    Ready,
    /// It may miss documents.
    Partial,
    /// Documents were written since it was built.
    Stale,
    /// The last build failed.
    Failed,
}

impl IndexState {
    /// Name of the state.
    pub open spec fn name(self) -> Seq<char> {
        match self {
            IndexState::Building => "building"@,
            IndexState::Rebuilding => "rebuilding"@,
            IndexState::Ready => "ready"@,
            IndexState::Partial => "partial"@,
            IndexState::Stale => "stale"@,
            IndexState::Failed => "failed"@,
        }
    }

    /// Name of the state.
    pub fn as_str(self) -> (r: &'static str)
        ensures
            r@ == self.name(),
    {
        match self {
            IndexState::Building => "building",
            IndexState::Rebuilding => "rebuilding",
            IndexState::Ready => "ready",
            IndexState::Partial => "partial",
            IndexState::Stale => "stale",
            IndexState::Failed => "failed",
        }
    }

    /// Whether a build is under way or was interrupted.
    pub fn is_build_in_progress(self) -> (r: bool)
        ensures
            r == (self == IndexState::Building || self == IndexState::Rebuilding),
    {
        match self {
            IndexState::Building | IndexState::Rebuilding => true,
            _ => false,
        }
    }
}

/// What the store keeps of an index beside its postings.
#[derive(Debug)]
pub struct IndexMeta {
    /// Name.
    pub name: String,
    /// Collection, by the store's key for it.
    pub collection: String,
    /// Fields in order.
    pub fields: Vec<String>,
    /// State.
    pub state: IndexState,
    /// Number of postings.
    pub entry_count: u64,
    /// Whether every document is in it.
    pub complete_coverage: bool,
    /// Why the last build failed.
    pub failure_reason: String,
    /// Build id.
    pub build_id: [u8; 16],
}

/// Model of an [`IndexMeta`].
#[verifier::ext_equal]
pub struct IndexMetaView {
    pub name: Seq<char>,
    pub collection: Seq<char>,
    pub fields: Seq<Seq<char>>,
    pub state: IndexState,
    pub entry_count: u64,
    pub complete_coverage: bool,
    pub failure_reason: Seq<char>,
    pub build_id: Seq<u8>,
}

impl View for IndexMeta {
    type V = IndexMetaView;

    open spec fn view(&self) -> IndexMetaView {
        IndexMetaView {
            name: self.name@,
            collection: self.collection@,
            fields: texts(self.fields@),
            state: self.state,
            entry_count: self.entry_count,
            complete_coverage: self.complete_coverage,
            failure_reason: self.failure_reason@,
            build_id: self.build_id@,
        }
    }
}

/// The models of indexes.
pub open spec fn meta_views(v: Seq<IndexMeta>) -> Seq<IndexMetaView> {
    v.map_values(|m: IndexMeta| m@)
}

/// An index as it is shown.
pub open spec fn shown(m: IndexMetaView, collection: Seq<char>) -> IndexInfoView {
    IndexInfoView {
        name: m.name,
        collection,
        fields: m.fields,
        state: m.state.name(),
        entry_count: m.entry_count,
        complete_coverage: m.complete_coverage,
        failure_reason: m.failure_reason,
        build_id_hex: hex_text(m.build_id),
    }
}

pub(crate) fn copy_texts(v: &Vec<String>) -> (r: Vec<String>)
    ensures
        texts(r@) == texts(v@),
{
    let ghost all = texts(v@);
    let mut out: Vec<String> = Vec::new();
    let mut i: usize = 0;
    proof {
        assert(texts(out@) =~= all.take(0));
    }
    while i < v.len()
        invariant
            i <= v@.len(),
            all == texts(v@),
            texts(out@) == all.take(i as int),
        decreases v@.len() - i,
    {
        let ghost before = texts(out@);
        out.push(v[i].clone());
        proof {
            assert(texts(out@) =~= before.push(all[i as int]));
            assert(texts(out@) =~= all.take(i + 1));
        }
        i = i + 1;
    }
    proof {
        assert(all.take(all.len() as int) =~= all);
    }
    out
}

impl IndexInfo {
    /// An index as it is shown, under the store's key of its collection.
    pub fn from_store(meta: &IndexMeta) -> (r: IndexInfo)
        ensures
            r@ == shown(meta@, meta@.collection),
    {
        IndexInfo::from_store_with_collection(meta, meta.collection.as_str())
    }

    /// An index as it is shown, under the given name of its collection.
    pub fn from_store_with_collection(meta: &IndexMeta, collection: &str) -> (r: IndexInfo)
        ensures
            r@ == shown(meta@, collection@),
    {
        IndexInfo {
            name: meta.name.clone(),
            collection: collection.to_string(),
            fields: copy_texts(&meta.fields),
            state: meta.state.as_str().to_string(),
            entry_count: meta.entry_count,
            complete_coverage: meta.complete_coverage,
            failure_reason: meta.failure_reason.clone(),
            build_id_hex: hex_of(meta.build_id.as_slice()),
        }
    }
}

/// The index of a name in a listing, where it is there.
pub fn find_by_name(list: &Vec<IndexInfo>, name: &str) -> (r: Option<usize>)
    ensures
        match r {
            Some(i) => i < list@.len() && list@[i as int].name@ == name@ && forall|j: int|
                0 <= j < i ==> (#[trigger] list@[j]).name@ != name@,
            None => forall|j: int| 0 <= j < list@.len() ==> (#[trigger] list@[j]).name@ != name@,
        },
{
    let mut i: usize = 0;
    while i < list.len()
        invariant
            i <= list@.len(),
            forall|j: int| 0 <= j < i ==> (#[trigger] list@[j]).name@ != name@,
        decreases list@.len() - i,
    {
        if same_text(list[i].name.as_str(), name) {
            return Some(i);
        }
        i = i + 1;
    }
    None
}

/// The refusal of an index that is not there.
pub fn index_not_found(name: &str) -> (r: Error)
    ensures
        r@ == ErrorView::QueryInvalid("index not found: "@ + name@),
{
    Error::QueryInvalid(cat2("index not found: ", name))
}

/// Refuses to continue a build where none is under way.
pub fn check_continues(meta: &Option<IndexMeta>, name: &str) -> (r: Result<(), Error>)
    ensures
        match meta {
            None => r is Err && r->Err_0@ == ErrorView::QueryInvalid("index not found: "@ + name@),
            Some(m) => match r {
                Ok(_) => m.state == IndexState::Building || m.state == IndexState::Rebuilding,
                Err(e) => m.state != IndexState::Building && m.state != IndexState::Rebuilding
                    && e@ == ErrorView::QueryInvalid(
                    "index "@ + name@ + " is not building (state="@ + m.state.name() + ")"@,
                ),
            },
        },
{
    match meta {
        None => Err(index_not_found(name)),
        Some(m) => if m.state.is_build_in_progress() {
            Ok(())
        } else {
            Err(
                Error::QueryInvalid(
                    cat5("index ", name, " is not building (state=", m.state.as_str(), ")"),
                ),
            )
        },
    }
}

/// How a build begins.
#[derive(Debug, Clone, Copy, PartialEq, Eq, Structural)]
pub enum BuildStart {
    /// It goes on where it was interrupted.
    Resume,
    /// It begins anew, as a rebuild where there was an index before.
    Fresh {
        /// Whether it is a rebuild.
        rebuild: bool,
    },
}

fn same_fields(a: &Vec<String>, b: &Vec<String>) -> (r: bool)
    ensures
        r == (texts(a@) == texts(b@)),
{
    if a.len() != b.len() {
        proof {
            assert(texts(a@).len() != texts(b@).len());
        }
        return false;
    }
    let mut i: usize = 0;
    while i < a.len()
        invariant
            i <= a@.len(),
            a@.len() == b@.len(),
            forall|k: int| 0 <= k < i ==> (#[trigger] a@[k])@ == b@[k]@,
        decreases a@.len() - i,
    {
        if !same_text(a[i].as_str(), b[i].as_str()) {
            proof {
                assert(texts(a@)[i as int] != texts(b@)[i as int]);
            }
            return false;
        }
        i = i + 1;
    }
    proof {
        assert(texts(a@) =~= texts(b@));
    }
    true
}

/// Decides how an index is built. An interrupted build of the same fields goes
/// on, unless a rebuild is forced.
pub fn start_build(
    existing: &Option<IndexMeta>,
    name: &str,
    fields: &Vec<String>,
    force_rebuild: bool,
) -> (r: Result<BuildStart, Error>)
    ensures
        if name@.len() == 0 {
            r is Err && r->Err_0@ == ErrorView::InvalidKey("index name empty"@)
        } else if fields@.len() == 0 {
            r is Err && r->Err_0@ == ErrorView::QueryInvalid("index requires at least one field"@)
        } else {
            r == Ok::<BuildStart, Error>(
                if !force_rebuild && (existing matches Some(m) && (m.state == IndexState::Building
                    || m.state == IndexState::Rebuilding) && texts(m.fields@) == texts(fields@)) {
                    BuildStart::Resume
                } else {
                    BuildStart::Fresh { rebuild: force_rebuild || existing is Some }
                },
            )
        },
{
    if name.is_empty() {
        return Err(Error::InvalidKey("index name empty"));
    }
    if fields.len() == 0 {
        return Err(Error::QueryInvalid("index requires at least one field".to_string()));
    }
    match existing {
        Some(m) => {
            if !force_rebuild && m.state.is_build_in_progress() && same_fields(&m.fields, fields) {
                Ok(BuildStart::Resume)
            } else {
                Ok(BuildStart::Fresh { rebuild: true })
            }
        },
        None => Ok(BuildStart::Fresh { rebuild: force_rebuild }),
    }
}

/// Whether the failure of a build is recorded in the index. A failpoint stands
/// for a crash and is not.
pub fn records_failure(e: &Error) -> (r: bool)
    ensures
        r == !(e@ matches ErrorView::Store(s) && s.kind == StoreErrorKindView::Failpoint),
{
    match e {
        Error::Store(s) => match s.kind {
            StoreErrorKind::Failpoint => false,
            _ => true,
        },
        _ => true,
    }
}

/// The bytes of an index key: the JSON texts of the field values with a unit
/// separator between them.
pub open spec fn key_bytes(values: Seq<JsonView>) -> Seq<u8>
    decreases values.len(),
{
    if values.len() == 0 {
        Seq::empty()
    } else if values.len() == 1 {
        vstd::utf8::encode_utf8(json_text(values[0]))
    } else {
        key_bytes(values.drop_last()).push(0x1f) + vstd::utf8::encode_utf8(json_text(values.last()))
    }
}

/// The values of fields in a document, where all are there.
pub open spec fn values_of(doc: JsonView, fields: Seq<Seq<char>>) -> Option<Seq<JsonView>>
    decreases fields.len(),
{
    if fields.len() == 0 {
        Some(Seq::empty())
    } else {
        match values_of(doc, fields.drop_last()) {
            None => None,
            Some(before) => match field_value(doc, fields.last()) {
                None => None,
                Some(v) => Some(before.push(v)),
            },
        }
    }
}

/// The index key of a document; a document without one of the fields has none.
pub open spec fn doc_key(doc: JsonView, fields: Seq<Seq<char>>) -> Option<Seq<u8>> {
    match values_of(doc, fields) {
        Some(values) => Some(key_bytes(values)),
        None => None,
    }
}

proof fn lemma_values_missing(doc: JsonView, fields: Seq<Seq<char>>, n: int)
    requires
        0 <= n <= fields.len(),
        values_of(doc, fields.take(n)) is None,
    ensures
        values_of(doc, fields) is None,
    decreases fields.len(),
{
    if n < fields.len() {
        assert(fields.drop_last().take(n) =~= fields.take(n));
        lemma_values_missing(doc, fields.drop_last(), n);
    } else {
        assert(fields.take(n) =~= fields);
    }
}

fn push_value(out: &mut Vec<u8>, first: bool, v: &Json)
    ensures
        final(out)@ == (if first {
            old(out)@
        } else {
            old(out)@.push(0x1f)
        }) + vstd::utf8::encode_utf8(json_text(v@)),
{
    if !first {
        out.push(0x1f);
    }
    push_text(out, write_json(v).as_str());
}

/// The index key of a document.
pub fn index_key_for_doc(doc: &Json, fields: &Vec<String>) -> (r: Option<Vec<u8>>)
    ensures
        match r {
            Some(k) => doc_key(doc@, texts(fields@)) == Some(k@),
            None => doc_key(doc@, texts(fields@)) is None,
        },
{
    let ghost all = texts(fields@);
    let ghost mut values: Seq<JsonView> = Seq::empty();
    let mut out: Vec<u8> = Vec::new();
    let mut i: usize = 0;
    proof {
        assert(all.take(0) =~= Seq::empty());
    }
    while i < fields.len()
        invariant
            i <= fields@.len(),
            all == texts(fields@),
            values.len() == i,
            values_of(doc@, all.take(i as int)) == Some(values),
            out@ == key_bytes(values),
        decreases fields@.len() - i,
    {
        proof {
            assert(all.take(i + 1).drop_last() =~= all.take(i as int));
            assert(all.take(i + 1).last() == fields@[i as int]@);
        }
        match resolve_path_value(doc, fields[i].as_str()) {
            None => {
                proof {
                    lemma_values_missing(doc@, all, i + 1);
                }
                return None;
            },
            Some(v) => {
                push_value(&mut out, i == 0, v);
                proof {
                    let next = values.push(v@);
                    assert(next.drop_last() =~= values);
                    assert(next.last() == v@);
                    if i == 0 {
                        assert(out@ =~= vstd::utf8::encode_utf8(json_text(v@)));
                    }
                    assert(out@ =~= key_bytes(next));
                    values = next;
                }
            },
        }
        i = i + 1;
    }
    proof {
        assert(all.take(all.len() as int) =~= all);
    }
    Some(out)
}

/// The walk over the live documents that fills an index.
#[derive(Debug)]
pub struct BuildWalk {
    /// Subject that was taken last.
    pub after: Option<Vec<u8>>,
    /// Entries since the last checkpoint.
    pub since_checkpoint: usize,
    /// Whether some body could not be read.
    pub saw_incomplete: bool,
}

/// What is done with an entry.
#[derive(Debug)]
pub struct EntryStep {
    /// Key under which the subject is posted, where it has one.
    pub posting: Option<Vec<u8>>,
    /// Whether the progress is written now.
    pub checkpoint: bool,
}

impl BuildWalk {
    /// A walk from the progress that was written last; empty where there is
    /// none.
    pub fn start(resume_after: Vec<u8>) -> (r: BuildWalk)
        ensures
            r.since_checkpoint == 0,
            !r.saw_incomplete,
            r.after == (if resume_after@.len() == 0 {
                None
            } else {
                Some(resume_after)
            }),
    {
        let after = if resume_after.len() == 0 {
            None
        } else {
            Some(resume_after)
        };
        BuildWalk { after, since_checkpoint: 0, saw_incomplete: false }
    }

    /// Begins a page; `incomplete` tells how many bodies it could not read.
    pub fn begin_page(&mut self, incomplete: usize)
        ensures
            final(self).after == old(self).after,
            final(self).since_checkpoint == old(self).since_checkpoint,
            final(self).saw_incomplete == (old(self).saw_incomplete || incomplete > 0),
    {
        if incomplete > 0 {
            self.saw_incomplete = true;
        }
    }

    /// Takes an entry. A body that is no JSON is passed over; it still counts
    /// as progress.
    pub fn take_entry(&mut self, subject: Vec<u8>, doc: &Option<Json>, fields: &Vec<String>) -> (r:
        EntryStep)
        ensures
            final(self).after == Some(subject),
            final(self).saw_incomplete == old(self).saw_incomplete,
            ({
                let n = if old(self).since_checkpoint == usize::MAX {
                    usize::MAX
                } else {
                    (old(self).since_checkpoint + 1) as usize
                };
                match doc {
                    None => r.posting is None && !r.checkpoint && final(self).since_checkpoint == n,
                    Some(d) => (match r.posting {
                        Some(k) => doc_key(d@, texts(fields@)) == Some(k@),
                        None => doc_key(d@, texts(fields@)) is None,
                    }) && r.checkpoint == (n >= BUILD_CHECKPOINT_EVERY) && final(self).since_checkpoint == (if n >= BUILD_CHECKPOINT_EVERY {
                        0
                    } else {
                        n
                    }),
                }
            }),
    {
        self.after = Some(subject);
        self.since_checkpoint = self.since_checkpoint.saturating_add(1);
        match doc {
            None => EntryStep { posting: None, checkpoint: false },
            Some(d) => {
                let posting = index_key_for_doc(d, fields);
                let checkpoint = self.since_checkpoint >= BUILD_CHECKPOINT_EVERY;
                if checkpoint {
                    self.since_checkpoint = 0;
                }
                EntryStep { posting, checkpoint }
            },
        }
    }

    /// Ends a page. The walk goes on behind the last subject of the page, also
    /// where its body could not be read. Gives whether there is more.
    pub fn end_page(&mut self, last: Option<Vec<u8>>, has_more: bool) -> (r: bool)
        ensures
            r == has_more,
            final(self).after == (if last is Some {
                last
            } else {
                old(self).after
            }),
            final(self).since_checkpoint == old(self).since_checkpoint,
            final(self).saw_incomplete == old(self).saw_incomplete,
    {
        if last.is_some() {
            self.after = last;
        }
        has_more
    }
}

/// Whether the documents changed while they were walked, so that the index is
/// filled once more.
pub fn needs_catch_up(frontier_now: &[u8], source_frontier: &[u8]) -> (r: bool)
    ensures
        r == (frontier_now@ != source_frontier@),
{
    !same_bytes(frontier_now, source_frontier)
}

/// What a finished build is marked as.
#[derive(Debug, Clone, Copy, PartialEq, Eq)]
pub enum BuildEnd {
    /// Ready: it holds every document.
    Ready,
    /// Partial, with the reason.
    Partial(&'static str),
}

/// Decides what a finished build is marked as. Only a build that read every
/// body and saw no change is ready.
pub fn end_build(saw_incomplete: bool, frontier_final: &[u8], source_frontier: &[u8]) -> (r: BuildEnd)
    ensures
        match r {
            BuildEnd::Ready => !saw_incomplete && frontier_final@ == source_frontier@,
            BuildEnd::Partial(reason) => if saw_incomplete {
                reason@ == "incomplete payloads during build; absence not proven"@
            } else {
                frontier_final@ != source_frontier@ && reason@
                    == "source frontier drifted after catch-up; absence not proven"@
            },
        },
{
    if saw_incomplete {
        BuildEnd::Partial("incomplete payloads during build; absence not proven")
    } else if same_bytes(frontier_final, source_frontier) {
        BuildEnd::Ready
    } else {
        BuildEnd::Partial("source frontier drifted after catch-up; absence not proven")
    }
}

/// Whether an index has to be written after it was marked stale.
pub fn stale_mark_changes(
    before: IndexState,
    before_coverage: bool,
    after: IndexState,
    after_coverage: bool,
) -> (r: bool)
    ensures
        r == (after != before || after_coverage != before_coverage),
{
    after != before || after_coverage != before_coverage
}

/// The equalities that a filter demands: of a field, or of the parts of a
/// conjunction.
pub open spec fn equalities(f: FilterView) -> Seq<(Seq<char>, JsonView)>
    decreases f,
{
    match f {
        FilterView::Field { path, pred: PredView::Eq(v) } => seq![(path, v)],
        FilterView::And(parts) => part_equalities(parts),
        _ => Seq::empty(),
    }
}

/// The equalities of a list of filters, in order.
pub open spec fn part_equalities(parts: Seq<FilterView>) -> Seq<(Seq<char>, JsonView)>
    decreases parts,
{
    if parts.len() == 0 {
        Seq::empty()
    } else {
        proof {
            assert(decreases_to!(parts => parts.subrange(0, parts.len() - 1)));
            assert(parts.drop_last() == parts.subrange(0, parts.len() - 1));
            assert(decreases_to!(parts => parts[parts.len() - 1]));
        }
        part_equalities(parts.drop_last()) + equalities(parts.last())
    }
}

/// The models of equalities.
pub open spec fn pair_views(v: Seq<(String, Json)>) -> Seq<(Seq<char>, JsonView)> {
    v.map_values(|p: (String, Json)| (p.0@, p.1@))
}

fn push_equalities(out: &mut Vec<(String, Json)>, filter: &Filter)
    ensures
        pair_views(final(out)@) == pair_views(old(out)@) + equalities(filter@),
    decreases filter,
{
    let ghost start = pair_views(out@);
    match filter {
        Filter::Field { path, pred: Pred::Eq(v) } => {
            out.push((path.clone(), v.clone()));
            proof {
                assert(pair_views(out@) =~= start + seq![(path@, v@)]);
            }
        },
        Filter::And(parts) => {
            proof {
                assert(decreases_to!(*filter => filter->And_0));
                crate::filter::lemma_and_filter_model(*parts);
            }
            push_part_equalities(out, parts);
        },
        _ => {
            proof {
                assert(start + Seq::<(Seq<char>, JsonView)>::empty() =~= start);
            }
        },
    }
}

fn push_part_equalities(out: &mut Vec<(String, Json)>, parts: &Vec<Filter>)
    ensures
        pair_views(final(out)@) == pair_views(old(out)@) + part_equalities(filter_models(parts@)),
    decreases parts,
{
    let ghost start = pair_views(out@);
    let ghost all = filter_models(parts@);
    let mut i: usize = 0;
    proof {
        assert(all.take(0) =~= Seq::empty());
        assert(start + Seq::<(Seq<char>, JsonView)>::empty() =~= start);
    }
    while i < parts.len()
        invariant
            i <= parts@.len(),
            all == filter_models(parts@),
            pair_views(out@) == start + part_equalities(all.take(i as int)),
        decreases parts@.len() - i,
    {
        proof {
            assert(all.take(i + 1).drop_last() =~= all.take(i as int));
            assert(all.take(i + 1).last() == parts@[i as int]@);
            assert(decreases_to!(*parts => parts@));
            assert(decreases_to!(parts@ => parts@[i as int]));
        }
        push_equalities(out, &parts[i]);
        proof {
            assert(pair_views(out@) =~= start + part_equalities(all.take(i + 1)));
        }
        i = i + 1;
    }
    proof {
        assert(all.take(all.len() as int) =~= all);
    }
}

/// The equalities that a filter demands.
pub fn equality_fields(filter: &Filter) -> (r: Vec<(String, Json)>)
    ensures
        pair_views(r@) == equalities(filter@),
{
    let mut out: Vec<(String, Json)> = Vec::new();
    proof {
        assert(pair_views(out@) =~= Seq::empty());
        assert(Seq::<(Seq<char>, JsonView)>::empty() + equalities(filter@) =~= equalities(filter@));
    }
    push_equalities(&mut out, filter);
    out
}

/// The first value that equalities demand of a field.
pub open spec fn demanded(eqs: Seq<(Seq<char>, JsonView)>, field: Seq<char>, from: int) -> Option<
    JsonView,
>
    decreases eqs.len() - from,
{
    if from < 0 || from >= eqs.len() {
        None
    } else if eqs[from].0 == field {
        Some(eqs[from].1)
    } else {
        demanded(eqs, field, from + 1)
    }
}

/// The values that equalities demand of fields, where every field has one.
pub open spec fn demanded_values(eqs: Seq<(Seq<char>, JsonView)>, fields: Seq<Seq<char>>) -> Option<
    Seq<JsonView>,
>
    decreases fields.len(),
{
    if fields.len() == 0 {
        Some(Seq::empty())
    } else {
        match demanded_values(eqs, fields.drop_last()) {
            None => None,
            Some(before) => match demanded(eqs, fields.last(), 0) {
                None => None,
                Some(v) => Some(before.push(v)),
            },
        }
    }
}

proof fn lemma_demand_missing(eqs: Seq<(Seq<char>, JsonView)>, fields: Seq<Seq<char>>, n: int)
    requires
        0 <= n <= fields.len(),
        demanded_values(eqs, fields.take(n)) is None,
    ensures
        demanded_values(eqs, fields) is None,
    decreases fields.len(),
{
    if n < fields.len() {
        assert(fields.drop_last().take(n) =~= fields.take(n));
        lemma_demand_missing(eqs, fields.drop_last(), n);
    } else {
        assert(fields.take(n) =~= fields);
    }
}

fn find_demand(eqs: &Vec<(String, Json)>, field: &str) -> (r: Option<usize>)
    ensures
        match r {
            Some(i) => i < eqs@.len() && demanded(pair_views(eqs@), field@, 0) == Some(
                eqs@[i as int].1@,
            ),
            None => demanded(pair_views(eqs@), field@, 0) is None,
        },
{
    let ghost all = pair_views(eqs@);
    let mut i: usize = 0;
    while i < eqs.len()
        invariant
            i <= eqs@.len(),
            all == pair_views(eqs@),
            demanded(all, field@, 0) == demanded(all, field@, i as int),
        decreases eqs@.len() - i,
    {
        if same_text(eqs[i].0.as_str(), field) {
            return Some(i);
        }
        i = i + 1;
    }
    None
}

/// The key under which an index with these fields is asked, where the filter
/// demands a value of each.
pub open spec fn lookup_key(eqs: Seq<(Seq<char>, JsonView)>, fields: Seq<Seq<char>>) -> Option<
    Seq<u8>,
> {
    match demanded_values(eqs, fields) {
        Some(values) => Some(key_bytes(values)),
        None => None,
    }
}

fn key_for(eqs: &Vec<(String, Json)>, fields: &Vec<String>) -> (r: Option<Vec<u8>>)
    ensures
        match r {
            Some(k) => lookup_key(pair_views(eqs@), texts(fields@)) == Some(k@),
            None => lookup_key(pair_views(eqs@), texts(fields@)) is None,
        },
{
    let ghost all = texts(fields@);
    let ghost pairs = pair_views(eqs@);
    let ghost mut values: Seq<JsonView> = Seq::empty();
    let mut out: Vec<u8> = Vec::new();
    let mut i: usize = 0;
    proof {
        assert(all.take(0) =~= Seq::empty());
    }
    while i < fields.len()
        invariant
            i <= fields@.len(),
            all == texts(fields@),
            pairs == pair_views(eqs@),
            values.len() == i,
            demanded_values(pairs, all.take(i as int)) == Some(values),
            out@ == key_bytes(values),
        decreases fields@.len() - i,
    {
        proof {
            assert(all.take(i + 1).drop_last() =~= all.take(i as int));
            assert(all.take(i + 1).last() == fields@[i as int]@);
        }
        match find_demand(eqs, fields[i].as_str()) {
            None => {
                proof {
                    lemma_demand_missing(pairs, all, i + 1);
                }
                return None;
            },
            Some(k) => {
                push_value(&mut out, i == 0, &eqs[k].1);
                proof {
                    let v = eqs@[k as int].1@;
                    let next = values.push(v);
                    assert(next.drop_last() =~= values);
                    if i == 0 {
                        assert(out@ =~= vstd::utf8::encode_utf8(json_text(v)));
                    }
                    assert(out@ =~= key_bytes(next));
                    values = next;
                }
            },
        }
        i = i + 1;
    }
    proof {
        assert(all.take(all.len() as int) =~= all);
    }
    Some(out)
}

/// An index may answer alone for its collection: it is ready and holds every
/// document.
pub open spec fn exclusive(m: IndexMetaView) -> bool {
    m.state == IndexState::Ready && m.complete_coverage
}

/// An index answers a filter.
pub open spec fn answers(m: IndexMetaView, eqs: Seq<(Seq<char>, JsonView)>) -> bool {
    exclusive(m) && m.fields.len() > 0 && lookup_key(eqs, m.fields) is Some
}

/// The first index that answers, from a place on.
pub open spec fn first_answering(
    list: Seq<IndexMetaView>,
    eqs: Seq<(Seq<char>, JsonView)>,
    from: int,
) -> Option<int>
    decreases list.len() - from,
{
    if from < 0 || from >= list.len() {
        None
    } else if answers(list[from], eqs) {
        Some(from)
    } else {
        first_answering(list, eqs, from + 1)
    }
}

/// Chooses an index for a filter: the first that may answer alone and whose
/// fields the filter all demands values of. Gives its place in the listing and
/// the key to ask it for.
pub fn choose_index(list: &Vec<IndexMeta>, filter: &Filter) -> (r: Option<(usize, Vec<u8>)>)
    ensures
        ({
            let eqs = equalities(filter@);
            let metas = meta_views(list@);
            match r {
                Some(c) => c.0 < list@.len() && first_answering(metas, eqs, 0) == Some(c.0 as int)
                    && lookup_key(eqs, metas[c.0 as int].fields) == Some(c.1@) && eqs.len() > 0,
                None => eqs.len() == 0 || first_answering(metas, eqs, 0) is None,
            }
        }),
        match r {
            Some(c) => {
                let m = list@[c.0 as int];
                m.state == IndexState::Ready && m.complete_coverage && m.fields@.len() > 0
            },
            None => true,
        },
{
    let eqs = equality_fields(filter);
    let ghost pairs = pair_views(eqs@);
    let ghost metas = meta_views(list@);
    if eqs.len() == 0 {
        proof {
            assert(pairs.len() == 0);
        }
        return None;
    }
    proof {
        assert(pairs.len() == eqs@.len());
    }
    let mut i: usize = 0;
    while i < list.len()
        invariant
            i <= list@.len(),
            pairs == pair_views(eqs@),
            pairs == equalities(filter@),
            pairs.len() > 0,
            metas == meta_views(list@),
            first_answering(metas, pairs, 0) == first_answering(metas, pairs, i as int),
        decreases list@.len() - i,
    {
        let m = &list[i];
        let ready = match m.state {
            IndexState::Ready => true,
            _ => false,
        };
        proof {
            assert(metas[i as int] == m@);
            assert(m@.fields.len() == m.fields@.len());
        }
        if ready && m.complete_coverage && m.fields.len() > 0 {
            match key_for(&eqs, &m.fields) {
                Some(k) => {
                    return Some((i, k));
                },
                None => {},
            }
        }
        i = i + 1;
    }
    None
}

/// A filter cannot match without this value in this field: it is the equality
/// itself, or a conjunction with a part that demands it.
pub open spec fn demands(f: FilterView, path: Seq<char>, value: JsonView) -> bool
    decreases f,
{
    match f {
        FilterView::Field { path: p, pred: PredView::Eq(v) } => p == path && v == value,
        FilterView::And(parts) => exists|i: int|
            0 <= i < parts.len() && demands(#[trigger] parts[i], path, value),
        _ => false,
    }
}

/// A filter demands some value of a field.
pub open spec fn demands_of(f: FilterView, path: Seq<char>) -> bool {
    exists|value: JsonView| demands(f, path, value)
}

/// No equality of a list is about a field.
spec fn silent_on(eqs: Seq<(Seq<char>, JsonView)>, field: Seq<char>) -> bool {
    forall|v: JsonView| !#[trigger] eqs.contains((field, v))
}

/// The listed equalities are exactly those that the filter demands.
pub proof fn law_equalities_are_the_demands(f: FilterView, path: Seq<char>, value: JsonView)
    ensures
        equalities(f).contains((path, value)) <==> demands(f, path, value),
    decreases f,
{
    match f {
        FilterView::Field { path: p, pred: PredView::Eq(v) } => {
            assert(equalities(f)[0] == (p, v));
        },
        FilterView::And(parts) => {
            lemma_part_demands(parts, path, value);
        },
        _ => {},
    }
}

proof fn lemma_part_demands(parts: Seq<FilterView>, path: Seq<char>, value: JsonView)
    ensures
        part_equalities(parts).contains((path, value)) <==> exists|i: int|
            0 <= i < parts.len() && demands(#[trigger] parts[i], path, value),
    decreases parts,
{
    if parts.len() > 0 {
        let shorter = parts.drop_last();
        let pair = (path, value);
        assert(decreases_to!(parts => parts.subrange(0, parts.len() - 1)));
        assert(shorter == parts.subrange(0, parts.len() - 1));
        assert(decreases_to!(parts => parts[parts.len() - 1]));
        lemma_part_demands(shorter, path, value);
        law_equalities_are_the_demands(parts.last(), path, value);
        let before = part_equalities(shorter);
        let after = equalities(parts.last());
        let all = part_equalities(parts);
        assert(all == before + after);
        if all.contains(pair) {
            let k = choose|k: int| 0 <= k < all.len() && all[k] == pair;
            if k < before.len() {
                assert(before[k] == pair);
                let i = choose|i: int| 0 <= i < shorter.len() && demands(shorter[i], path, value);
                assert(demands(parts[i], path, value));
            } else {
                assert(after[k - before.len()] == pair);
                assert(demands(parts[parts.len() - 1], path, value));
            }
        }
        if exists|i: int| 0 <= i < parts.len() && demands(#[trigger] parts[i], path, value) {
            let i = choose|i: int| 0 <= i < parts.len() && demands(#[trigger] parts[i], path, value);
            if i < shorter.len() {
                assert(demands(shorter[i], path, value));
                let k = choose|k: int| 0 <= k < before.len() && before[k] == pair;
                assert(all[k] == pair);
            } else {
                let k = choose|k: int| 0 <= k < after.len() && after[k] == pair;
                assert(all[before.len() + k] == pair);
            }
        }
    }
}

proof fn lemma_demanded_values(eqs: Seq<(Seq<char>, JsonView)>, fields: Seq<Seq<char>>)
    ensures
        match demanded_values(eqs, fields) {
            Some(values) => values.len() == fields.len() && forall|n: int|
                0 <= n < fields.len() ==> eqs.contains((fields[n], #[trigger] values[n])),
            None => exists|n: int|
                0 <= n < fields.len() && silent_on(eqs, #[trigger] fields[n]),
        },
    decreases fields.len(),
{
    if fields.len() > 0 {
        lemma_demanded_values(eqs, fields.drop_last());
        match demanded_values(eqs, fields.drop_last()) {
            None => {
                let n = choose|n: int|
                    0 <= n < fields.drop_last().len() && silent_on(
                        eqs,
                        #[trigger] fields.drop_last()[n],
                    );
                assert(fields[n] == fields.drop_last()[n]);
            },
            Some(before) => {
                let last = fields[fields.len() - 1];
                if demanded(eqs, last, 0) is None {
                    assert forall|v: JsonView| !#[trigger] eqs.contains((last, v)) by {
                        lemma_not_demanded(eqs, last, v, 0);
                    }
                    assert(silent_on(eqs, fields[fields.len() - 1]));
                } else {
                    let k = lemma_demanded_at(eqs, last, 0);
                    let values = demanded_values(eqs, fields)->0;
                    assert forall|n: int| 0 <= n < fields.len() implies eqs.contains(
                        (fields[n], #[trigger] values[n]),
                    ) by {
                        if n < before.len() {
                            assert(values[n] == before[n]);
                            assert(fields.drop_last()[n] == fields[n]);
                        } else {
                            assert(eqs[k] == (last, values[n]));
                        }
                    }
                }
            },
        }
    }
}

proof fn lemma_not_demanded(eqs: Seq<(Seq<char>, JsonView)>, field: Seq<char>, v: JsonView, from: int)
    requires
        0 <= from,
        demanded(eqs, field, from) is None,
    ensures
        forall|k: int| from <= k < eqs.len() ==> #[trigger] eqs[k] != (field, v),
    decreases eqs.len() - from,
{
    if from < eqs.len() {
        lemma_not_demanded(eqs, field, v, from + 1);
    }
}

proof fn lemma_first_answering(list: Seq<IndexMetaView>, eqs: Seq<(Seq<char>, JsonView)>, from: int)
    requires
        0 <= from,
    ensures
        match first_answering(list, eqs, from) {
            Some(i) => from <= i < list.len() && answers(list[i], eqs) && forall|j: int|
                from <= j < i ==> !answers(#[trigger] list[j], eqs),
            None => forall|j: int| from <= j < list.len() ==> !answers(#[trigger] list[j], eqs),
        },
    decreases list.len() - from,
{
    if from < list.len() && !answers(list[from], eqs) {
        lemma_first_answering(list, eqs, from + 1);
    }
}

/// An index that may stand in for its collection under a filter: it is ready,
/// it covers every document, it has fields, and the filter demands a value of
/// each of them.
pub open spec fn usable(m: IndexMetaView, f: FilterView) -> bool {
    &&& m.state == IndexState::Ready
    &&& m.complete_coverage
    &&& m.fields.len() > 0
    &&& forall|n: int|
        0 <= n < m.fields.len() ==> demands_of(f, #[trigger] m.fields[n])
}

proof fn lemma_answers_usable(m: IndexMetaView, f: FilterView)
    ensures
        answers(m, equalities(f)) <==> usable(m, f),
{
    let eqs = equalities(f);
    lemma_demanded_values(eqs, m.fields);
    match demanded_values(eqs, m.fields) {
        Some(values) => {
            assert forall|n: int| 0 <= n < m.fields.len() implies demands_of(
                f,
                #[trigger] m.fields[n],
            ) by {
                law_equalities_are_the_demands(f, m.fields[n], values[n]);
                assert(demands(f, m.fields[n], values[n]));
            }
        },
        None => {
            let n = choose|n: int|
                0 <= n < m.fields.len() && silent_on(eqs, #[trigger] m.fields[n]);
            assert forall|v: JsonView| !demands(f, m.fields[n], v) by {
                law_equalities_are_the_demands(f, m.fields[n], v);
            }
            assert(!demands_of(f, m.fields[n]));
        },
    }
}

/// Only an index that is ready, covers every document and has fields is
/// chosen, never one that is building, rebuilding, partial, stale or failed.
/// The first of a listing that can serve the filter is the one chosen, and one
/// is chosen wherever any can serve.
pub proof fn law_only_a_ready_index_is_chosen(list: Seq<IndexMetaView>, f: FilterView)
    ensures
        match first_answering(list, equalities(f), 0) {
            Some(i) => {
                &&& 0 <= i < list.len()
                &&& list[i].state == IndexState::Ready
                &&& list[i].complete_coverage
                &&& list[i].fields.len() > 0
                &&& usable(list[i], f)
                &&& forall|j: int| 0 <= j < i ==> !usable(#[trigger] list[j], f)
                &&& equalities(f).len() > 0
            },
            None => forall|j: int| 0 <= j < list.len() ==> !usable(#[trigger] list[j], f),
        },
{
    let eqs = equalities(f);
    lemma_first_answering(list, eqs, 0);
    assert forall|j: int| 0 <= j < list.len() implies answers(#[trigger] list[j], eqs) == usable(
        list[j],
        f,
    ) by {
        lemma_answers_usable(list[j], f);
    }
    match first_answering(list, eqs, 0) {
        Some(i) => {
            assert(answers(list[i], eqs));
            let field = list[i].fields[0];
            assert(demands_of(f, list[i].fields[0]));
            let v = choose|v: JsonView| demands(f, field, v);
            law_equalities_are_the_demands(f, field, v);
            assert(eqs.contains((field, v)));
        },
        None => {},
    }
}

/// The key under which an index is asked is made of the values that the filter
/// demands of the fields of the index, in the order of those fields.
pub proof fn law_lookup_key_holds_the_demanded_values(f: FilterView, fields: Seq<Seq<char>>)
    ensures
        match lookup_key(equalities(f), fields) {
            Some(key) => exists|values: Seq<JsonView>|
                {
                    &&& values.len() == fields.len()
                    &&& key == #[trigger] key_bytes(values)
                    &&& forall|n: int|
                        0 <= n < fields.len() ==> demands(f, fields[n], #[trigger] values[n])
                },
            None => exists|n: int|
                0 <= n < fields.len() && !demands_of(f, #[trigger] fields[n]),
        },
{
    let eqs = equalities(f);
    lemma_demanded_values(eqs, fields);
    match demanded_values(eqs, fields) {
        Some(values) => {
            assert forall|n: int| 0 <= n < fields.len() implies demands(
                f,
                fields[n],
                #[trigger] values[n],
            ) by {
                law_equalities_are_the_demands(f, fields[n], values[n]);
            }
            assert(lookup_key(eqs, fields) == Some(key_bytes(values)));
        },
        None => {
            let n = choose|n: int|
                0 <= n < fields.len() && silent_on(eqs, #[trigger] fields[n]);
            assert forall|v: JsonView| !demands(f, fields[n], v) by {
                law_equalities_are_the_demands(f, fields[n], v);
            }
            assert(!demands_of(f, fields[n]));
        },
    }
}

proof fn lemma_demand_holds(f: FilterView, doc: JsonView, k: int)
    requires
        filter_matches(f, doc),
        0 <= k < equalities(f).len(),
    ensures
        field_value(doc, equalities(f)[k].0) is Some,
        json_same(field_value(doc, equalities(f)[k].0)->0, equalities(f)[k].1),
    decreases f,
{
    match f {
        FilterView::And(parts) => {
            lemma_part_demand_holds(parts, doc, k);
        },
        _ => {},
    }
}

proof fn lemma_part_demand_holds(parts: Seq<FilterView>, doc: JsonView, k: int)
    requires
        forall|i: int| 0 <= i < parts.len() ==> filter_matches(#[trigger] parts[i], doc),
        0 <= k < part_equalities(parts).len(),
    ensures
        field_value(doc, part_equalities(parts)[k].0) is Some,
        json_same(field_value(doc, part_equalities(parts)[k].0)->0, part_equalities(parts)[k].1),
    decreases parts,
{
    if parts.len() > 0 {
        let shorter = parts.drop_last();
        assert(decreases_to!(parts => parts.subrange(0, parts.len() - 1)));
        assert(shorter == parts.subrange(0, parts.len() - 1));
        assert(decreases_to!(parts => parts[parts.len() - 1]));
        let before = part_equalities(shorter);
        if k < before.len() {
            assert forall|i: int| 0 <= i < shorter.len() implies filter_matches(
                #[trigger] shorter[i],
                doc,
            ) by {
                assert(shorter[i] == parts[i]);
            }
            lemma_part_demand_holds(shorter, doc, k);
        } else {
            assert(filter_matches(parts[parts.len() - 1], doc));
            lemma_demand_holds(parts.last(), doc, k - before.len());
            assert(part_equalities(parts)[k] == equalities(parts.last())[k - before.len()]);
        }
    }
}

proof fn lemma_demanded_at(eqs: Seq<(Seq<char>, JsonView)>, field: Seq<char>, from: int) -> (k: int)
    requires
        0 <= from,
        demanded(eqs, field, from) is Some,
    ensures
        from <= k < eqs.len(),
        eqs[k].0 == field,
        demanded(eqs, field, from) == Some(eqs[k].1),
    decreases eqs.len() - from,
{
    if eqs[from].0 == field {
        from
    } else {
        lemma_demanded_at(eqs, field, from + 1)
    }
}

/// Where the value of a field equals the demanded one, both are written alike.
pub open spec fn alike_at(
    eqs: Seq<(Seq<char>, JsonView)>,
    doc: JsonView,
    field: Seq<char>,
) -> bool {
    match (field_value(doc, field), demanded(eqs, field, 0)) {
        (Some(x), Some(v)) => json_same(x, v) ==> json_text(x) == json_text(v),
        _ => true,
    }
}

/// Equal values of the fields are written alike.
pub open spec fn written_alike(
    eqs: Seq<(Seq<char>, JsonView)>,
    doc: JsonView,
    fields: Seq<Seq<char>>,
) -> bool {
    forall|i: int| 0 <= i < fields.len() ==> alike_at(eqs, doc, #[trigger] fields[i])
}

proof fn lemma_same_keys(f: FilterView, doc: JsonView, fields: Seq<Seq<char>>)
    requires
        filter_matches(f, doc),
        demanded_values(equalities(f), fields) is Some,
        written_alike(equalities(f), doc, fields),
    ensures
        values_of(doc, fields) is Some,
        values_of(doc, fields)->0.len() == fields.len(),
        demanded_values(equalities(f), fields)->0.len() == fields.len(),
        forall|i: int|
            0 <= i < fields.len() ==> json_text(#[trigger] values_of(doc, fields)->0[i])
                == json_text(demanded_values(equalities(f), fields)->0[i]),
    decreases fields.len(),
{
    if fields.len() > 0 {
        let shorter = fields.drop_last();
        assert forall|i: int| 0 <= i < shorter.len() implies alike_at(
            equalities(f),
            doc,
            #[trigger] shorter[i],
        ) by {
            assert(shorter[i] == fields[i]);
        }
        lemma_same_keys(f, doc, shorter);
        let k = lemma_demanded_at(equalities(f), fields.last(), 0);
        lemma_demand_holds(f, doc, k);
        assert(fields[fields.len() - 1] == fields.last());
    }
}

proof fn lemma_key_bytes(a: Seq<JsonView>, b: Seq<JsonView>)
    requires
        a.len() == b.len(),
        forall|i: int| 0 <= i < a.len() ==> json_text(#[trigger] a[i]) == json_text(b[i]),
    ensures
        key_bytes(a) == key_bytes(b),
    decreases a.len(),
{
    if a.len() > 1 {
        assert forall|i: int| 0 <= i < a.drop_last().len() implies json_text(
            #[trigger] a.drop_last()[i],
        ) == json_text(b.drop_last()[i]) by {
            assert(a.drop_last()[i] == a[i]);
            assert(b.drop_last()[i] == b[i]);
        }
        lemma_key_bytes(a.drop_last(), b.drop_last());
        assert(a.last() == a[a.len() - 1]);
        assert(b.last() == b[b.len() - 1]);
    } else if a.len() == 1 {
        assert(json_text(a[0]) == json_text(b[0]));
    }
}

/// A document that matches a filter is posted under the key that the filter
/// asks an index for. So an index that holds every document names every match.
pub proof fn law_lookup_names_every_match(f: FilterView, doc: JsonView, fields: Seq<Seq<char>>)
    requires
        filter_matches(f, doc),
        lookup_key(equalities(f), fields) is Some,
        written_alike(equalities(f), doc, fields),
    ensures
        doc_key(doc, fields) == lookup_key(equalities(f), fields),
{
    lemma_same_keys(f, doc, fields);
    lemma_key_bytes(values_of(doc, fields)->0, demanded_values(equalities(f), fields)->0);
}

} // verus!
