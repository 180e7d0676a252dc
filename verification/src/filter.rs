//! JSON filters: the portable object vocabulary, its evaluation, and plans.
//!
//! A filter is written with builders or parsed from a JSON object. It is
//! evaluated directly on documents, lowered to the total predicate profile, or
//! compiled to a boolean expression text over the binding `input`.
use crate::error::{outcome, query_invalid, Error, ErrorView};
use crate::json::{
    group_json_model, json_same, lookup, members, models, with_member, Json, JsonMap, JsonView,
};
use crate::json_text::{json_text, number_order, order_numbers, write_json};
use crate::predicate::{
    clone_values, find, has_element, holds_element, listed, path_of_dotted, predicate_models,
    resolve, CompareOp, Operand, OperandView, Path, Predicate, PredicateView,
};
use crate::text::{
    begins_with, cat2, cat3, compare_text, contains, debug_quoted, debug_text, holds_text, pieces,
    same_text, split, starts_with, text_order, Order,
};
use vstd::prelude::*;

verus! {

broadcast use group_json_model;

/// Version tag for serialized query plans.
pub const QUERY_PLAN_PROFILE: &'static str = "residiuum-query-plan-v1";

/// Sort direction for ordered queries.
#[derive(Debug, Clone, Copy, PartialEq, Eq, Structural)]
pub enum SortOrder {
    /// Ascending (default).
    Asc,
    /// Descending.
    Desc,
}

impl Default for SortOrder {
    fn default() -> (r: SortOrder)
        ensures
            r == SortOrder::Asc,
    {
        SortOrder::Asc
    }
}

/// Explicit resource budget for scans.
#[derive(Debug, Clone, Copy, PartialEq, Eq, Structural)]
pub struct QueryBudget {
    /// Maximum live documents that may be examined.
    pub max_docs_scanned: Option<usize>,
    /// Maximum payload bytes examined while scanning or probing.
    pub max_bytes_scanned: Option<u64>,
    /// Maximum approximate memory for matches before sort and limit.
    pub max_result_bytes: Option<u64>,
}

impl Default for QueryBudget {
    fn default() -> (r: QueryBudget)
        ensures
            r.max_docs_scanned is None,
            r.max_bytes_scanned is None,
            r.max_result_bytes is None,
    {
        QueryBudget { max_docs_scanned: None, max_bytes_scanned: None, max_result_bytes: None }
    }
}

impl QueryBudget {
    /// Budget allowing at most `n` documents to be examined.
    pub fn max_docs(n: usize) -> (r: QueryBudget)
        ensures
            r.max_docs_scanned == Some(n),
            r.max_bytes_scanned is None,
            r.max_result_bytes is None,
    {
        QueryBudget { max_docs_scanned: Some(n), max_bytes_scanned: None, max_result_bytes: None }
    }

    /// Caps payload bytes examined during scan and probe.
    pub fn max_bytes(self, n: u64) -> (r: QueryBudget)
        ensures
            r == (QueryBudget { max_bytes_scanned: Some(n), ..self }),
    {
        QueryBudget { max_bytes_scanned: Some(n), ..self }
    }

    /// Caps approximate result and sort memory.
    pub fn max_result_memory(self, n: u64) -> (r: QueryBudget)
        ensures
            r == (QueryBudget { max_result_bytes: Some(n), ..self }),
    {
        QueryBudget { max_result_bytes: Some(n), ..self }
    }
}

/// Cooperative cancellation, as last seen by the holder of the options.
#[derive(Debug, Clone, Copy, PartialEq, Eq, Structural)]
pub struct CancelToken {
    /// Whether cancellation was asked for.
    pub cancelled: bool,
}

/// Options of a find.
#[derive(Debug, PartialEq, Eq)]
pub struct QueryOptions {
    /// Maximum number of matching rows to return. `None` means unbounded.
    pub limit: Option<usize>,
    /// Order-by field path and direction. Unset, results are in key order.
    pub order_by: Option<(String, SortOrder)>,
    /// Scan budget.
    pub budget: Option<QueryBudget>,
    /// Force a full scan even where an index exists.
    pub force_scan: bool,
    /// Return what was found when coverage is incomplete or the budget stops
    /// the scan, instead of an error.
    pub allow_partial_coverage: bool,
    /// Cooperative cancellation (not part of a serialized plan).
    pub cancel: Option<CancelToken>,
}

/// Model of [`QueryOptions`].
#[verifier::ext_equal]
pub struct QueryOptionsView {
    pub limit: Option<usize>,
    pub order_by: Option<(Seq<char>, SortOrder)>,
    pub budget: Option<QueryBudget>,
    pub force_scan: bool,
    pub allow_partial_coverage: bool,
    pub cancel: Option<CancelToken>,
}

impl View for QueryOptions {
    type V = QueryOptionsView;

    open spec fn view(&self) -> QueryOptionsView {
        QueryOptionsView {
            limit: self.limit,
            order_by: match self.order_by {
                Some(o) => Some((o.0@, o.1)),
                None => None,
            },
            budget: self.budget,
            force_scan: self.force_scan,
            allow_partial_coverage: self.allow_partial_coverage,
            cancel: self.cancel,
        }
    }
}

/// Options that ask for nothing.
pub open spec fn no_options() -> QueryOptionsView {
    QueryOptionsView {
        limit: None,
        order_by: None,
        budget: None,
        force_scan: false,
        allow_partial_coverage: false,
        cancel: None,
    }
}

impl Default for QueryOptions {
    fn default() -> (r: QueryOptions)
        ensures
            r@ == no_options(),
    {
        QueryOptions {
            limit: None,
            order_by: None,
            budget: None,
            force_scan: false,
            allow_partial_coverage: false,
            cancel: None,
        }
    }
}

impl Clone for QueryOptions {
    fn clone(&self) -> (r: QueryOptions)
        ensures
            r@ == self@,
    {
        QueryOptions {
            limit: self.limit,
            order_by: match &self.order_by {
                Some(o) => Some((o.0.clone(), o.1)),
                None => None,
            },
            budget: self.budget,
            force_scan: self.force_scan,
            allow_partial_coverage: self.allow_partial_coverage,
            cancel: self.cancel,
        }
    }
}

impl QueryOptions {
    /// Unbounded, key-ordered result.
    pub fn new() -> (r: QueryOptions)
        ensures
            r@ == no_options(),
    {
        QueryOptions::default()
    }

    /// Caps the number of returned rows.
    pub fn limit(self, n: usize) -> (r: QueryOptions)
        ensures
            r@ == (QueryOptionsView { limit: Some(n), ..self@ }),
    {
        QueryOptions { limit: Some(n), ..self }
    }

    /// Orders by a field path.
    pub fn order_by(self, field: &str, order: SortOrder) -> (r: QueryOptions)
        ensures
            r@ == (QueryOptionsView { order_by: Some((field@, order)), ..self@ }),
    {
        QueryOptions { order_by: Some((field.to_string(), order)), ..self }
    }

    /// Attaches a scan budget.
    pub fn budget(self, budget: QueryBudget) -> (r: QueryOptions)
        ensures
            r@ == (QueryOptionsView { budget: Some(budget), ..self@ }),
    {
        QueryOptions { budget: Some(budget), ..self }
    }

    /// Forces the scan path.
    pub fn force_scan(self) -> (r: QueryOptions)
        ensures
            r@ == (QueryOptionsView { force_scan: true, ..self@ }),
    {
        QueryOptions { force_scan: true, ..self }
    }

    /// Allows incomplete coverage and budget-truncated match lists.
    pub fn allow_partial_coverage(self) -> (r: QueryOptions)
        ensures
            r@ == (QueryOptionsView { allow_partial_coverage: true, ..self@ }),
    {
        QueryOptions { allow_partial_coverage: true, ..self }
    }

    /// Attaches a cancellation token.
    pub fn cancel(self, token: CancelToken) -> (r: QueryOptions)
        ensures
            r@ == (QueryOptionsView { cancel: Some(token), ..self@ }),
    {
        QueryOptions { cancel: Some(token), ..self }
    }
}

/// Field-level predicate.
#[derive(Debug, PartialEq)]
pub enum Pred {
    /// Exact equality.
    Eq(Json),
    /// Inequality.
    Ne(Json),
    /// Strictly less.
    Lt(Json),
    /// Less or equal.
    Lte(Json),
    /// Strictly greater.
    Gt(Json),
    /// Greater or equal.
    Gte(Json),
    /// Membership in a list of values.
    In(Vec<Json>),
    /// Field presence (`true`) or absence (`false`). `null` counts as present.
    Exists(bool),
    /// String value starts with this prefix.
    Prefix(String),
    /// String contains substring, or array contains element.
    Contains(Json),
}

/// Model of a [`Pred`].
#[verifier::ext_equal]
pub enum PredView {
    Eq(JsonView),
    Ne(JsonView),
    Lt(JsonView),
    Lte(JsonView),
    Gt(JsonView),
    Gte(JsonView),
    In(Seq<JsonView>),
    Exists(bool),
    Prefix(Seq<char>),
    Contains(JsonView),
}

impl View for Pred {
    type V = PredView;

    open spec fn view(&self) -> PredView {
        match self {
            Pred::Eq(v) => PredView::Eq(v@),
            Pred::Ne(v) => PredView::Ne(v@),
            Pred::Lt(v) => PredView::Lt(v@),
            Pred::Lte(v) => PredView::Lte(v@),
            Pred::Gt(v) => PredView::Gt(v@),
            Pred::Gte(v) => PredView::Gte(v@),
            Pred::In(list) => PredView::In(models(list@)),
            Pred::Exists(b) => PredView::Exists(*b),
            Pred::Prefix(s) => PredView::Prefix(s@),
            Pred::Contains(v) => PredView::Contains(v@),
        }
    }
}

impl Clone for Pred {
    fn clone(&self) -> (r: Pred)
        ensures
            r@ == self@,
    {
        match self {
            Pred::Eq(v) => Pred::Eq(v.clone()),
            Pred::Ne(v) => Pred::Ne(v.clone()),
            Pred::Lt(v) => Pred::Lt(v.clone()),
            Pred::Lte(v) => Pred::Lte(v.clone()),
            Pred::Gt(v) => Pred::Gt(v.clone()),
            Pred::Gte(v) => Pred::Gte(v.clone()),
            Pred::In(list) => Pred::In(clone_values(list)),
            Pred::Exists(b) => Pred::Exists(*b),
            Pred::Prefix(s) => Pred::Prefix(s.clone()),
            Pred::Contains(v) => Pred::Contains(v.clone()),
        }
    }
}

/// A filter expression over a JSON document.
#[derive(Debug, PartialEq)]
pub enum Filter {
    /// Matches every document.
    Always,
    /// Field path and predicate. Paths use `.` separators.
    Field {
        /// Dotted path.
        path: String,
        /// Predicate applied to the value at `path`.
        pred: Pred,
    },
    /// Conjunction.
    And(Vec<Filter>),
    /// Disjunction.
    Or(Vec<Filter>),
    /// Negation.
    Not(Box<Filter>),
}

/// Model of a [`Filter`].
#[verifier::ext_equal]
pub enum FilterView {
    Always,
    Field { path: Seq<char>, pred: PredView },
    And(Seq<FilterView>),
    Or(Seq<FilterView>),
    Not(Box<FilterView>),
}

impl Filter {
    /// The filter as its model.
    pub open spec fn model(&self) -> FilterView
        decreases self,
    {
        match self {
            Filter::Always => FilterView::Always,
            Filter::Field { path, pred } => FilterView::Field { path: path@, pred: pred@ },
            Filter::And(parts) => FilterView::And(
                Seq::new(
                    parts@.len(),
                    |i: int|
                        if 0 <= i < parts@.len() {
                            parts@[i].model()
                        } else {
                            FilterView::Always
                        },
                ),
            ),
            Filter::Or(parts) => FilterView::Or(
                Seq::new(
                    parts@.len(),
                    |i: int|
                        if 0 <= i < parts@.len() {
                            parts@[i].model()
                        } else {
                            FilterView::Always
                        },
                ),
            ),
            Filter::Not(inner) => FilterView::Not(Box::new(inner.model())),
        }
    }
}

impl View for Filter {
    type V = FilterView;

    open spec fn view(&self) -> FilterView {
        self.model()
    }
}

/// The models of a list of filters.
pub open spec fn filter_models(v: Seq<Filter>) -> Seq<FilterView> {
    Seq::new(v.len(), |i: int| v[i]@)
}

/// A conjunction is modelled part by part.
pub proof fn lemma_and_filter_model(parts: Vec<Filter>)
    ensures
        Filter::And(parts)@ == FilterView::And(filter_models(parts@)),
{
    let f = Filter::And(parts);
    assert(f@->And_0 =~= filter_models(parts@));
}

/// A disjunction is modelled part by part.
pub proof fn lemma_or_filter_model(parts: Vec<Filter>)
    ensures
        Filter::Or(parts)@ == FilterView::Or(filter_models(parts@)),
{
    let f = Filter::Or(parts);
    assert(f@->Or_0 =~= filter_models(parts@));
}

impl Clone for Filter {
    fn clone(&self) -> (r: Filter)
        ensures
            r@ == self@,
        decreases self,
    {
        match self {
            Filter::Always => Filter::Always,
            Filter::Field { path, pred } => Filter::Field { path: path.clone(), pred: pred.clone() },
            Filter::And(parts) => {
                proof {
                    assert(decreases_to!(*self => self->And_0));
                }
                let out = clone_filters(parts);
                proof {
                    lemma_and_filter_model(*parts);
                    lemma_and_filter_model(out);
                }
                Filter::And(out)
            },
            Filter::Or(parts) => {
                proof {
                    assert(decreases_to!(*self => self->Or_0));
                }
                let out = clone_filters(parts);
                proof {
                    lemma_or_filter_model(*parts);
                    lemma_or_filter_model(out);
                }
                Filter::Or(out)
            },
            Filter::Not(inner) => {
                let copy: Filter = (**inner).clone();
                Filter::Not(Box::new(copy))
            },
        }
    }
}

fn clone_filters(parts: &Vec<Filter>) -> (r: Vec<Filter>)
    ensures
        filter_models(r@) == filter_models(parts@),
    decreases parts,
{
    let mut out: Vec<Filter> = Vec::new();
    for i in 0..parts.len()
        invariant
            out@.len() == i,
            forall|k: int| 0 <= k < i ==> out@[k]@ == parts@[k]@,
    {
        proof {
            assert(decreases_to!(*parts => parts@));
            assert(decreases_to!(parts@ => parts@[i as int]));
        }
        out.push(parts[i].clone());
    }
    proof {
        assert(filter_models(out@) =~= filter_models(parts@));
    }
    out
}

/// The segments of a filter path. The empty path has none: it is the document.
pub open spec fn field_segments(path: Seq<char>) -> Seq<Seq<char>> {
    if path.len() == 0 {
        Seq::empty()
    } else {
        pieces(path, '.')
    }
}

/// What a filter path leads to in a document.
pub open spec fn field_value(doc: JsonView, path: Seq<char>) -> Option<JsonView> {
    resolve(doc, field_segments(path))
}

/// Order of two values. Numbers and strings compare with their own kind;
/// anything else does not compare.
pub open spec fn value_order(a: JsonView, b: JsonView) -> Option<Order> {
    match (a, b) {
        (JsonView::Number(x), JsonView::Number(y)) => number_order(x, y),
        (JsonView::Text(x), JsonView::Text(y)) => Some(text_order(x, y)),
        _ => None,
    }
}

/// Whether a value that is there satisfies a predicate.
pub open spec fn pred_holds(value: JsonView, pred: PredView) -> bool {
    match pred {
        PredView::Eq(rhs) => json_same(value, rhs),
        PredView::Ne(rhs) => !json_same(value, rhs),
        PredView::Lt(rhs) => value_order(value, rhs) == Some(Order::Less),
        PredView::Lte(rhs) => value_order(value, rhs) == Some(Order::Less) || value_order(
            value,
            rhs,
        ) == Some(Order::Equal),
        PredView::Gt(rhs) => value_order(value, rhs) == Some(Order::Greater),
        PredView::Gte(rhs) => value_order(value, rhs) == Some(Order::Greater) || value_order(
            value,
            rhs,
        ) == Some(Order::Equal),
        PredView::In(list) => holds_element(list, value),
        PredView::Exists(want) => want,
        PredView::Prefix(p) => match value {
            JsonView::Text(s) => begins_with(s, p),
            _ => false,
        },
        PredView::Contains(needle) => match (value, needle) {
            (JsonView::Text(hay), JsonView::Text(n)) => holds_text(hay, n),
            (JsonView::Array(items), n) => holds_element(items, n),
            _ => false,
        },
    }
}

/// Whether a field satisfies a predicate. An absent field satisfies only
/// absence and inequality.
pub open spec fn field_holds(value: Option<JsonView>, pred: PredView) -> bool {
    match value {
        Some(v) => pred_holds(v, pred),
        None => match pred {
            PredView::Exists(want) => !want,
            PredView::Ne(_) => true,
            _ => false,
        },
    }
}

/// Whether a document satisfies a filter.
pub open spec fn filter_matches(f: FilterView, doc: JsonView) -> bool
    decreases f,
{
    match f {
        FilterView::Always => true,
        FilterView::Field { path, pred } => field_holds(field_value(doc, path), pred),
        FilterView::And(parts) => forall|i: int|
            0 <= i < parts.len() ==> filter_matches(#[trigger] parts[i], doc),
        FilterView::Or(parts) => exists|i: int|
            0 <= i < parts.len() && filter_matches(#[trigger] parts[i], doc),
        FilterView::Not(inner) => !filter_matches(*inner, doc),
    }
}

/// Resolves a dotted path to the value that is there.
pub(crate) fn resolve_path_value<'a>(doc: &'a Json, path: &str) -> (r: Option<&'a Json>)
    ensures
        match r {
            Some(v) => field_value(doc@, path@) == Some(v@),
            None => field_value(doc@, path@) is None,
        },
{
    if path.is_empty() {
        return Some(doc);
    }
    let segs = split(path, '.');
    find(doc, &segs)
}

/// Compares two numbers or two strings.
pub(crate) fn compare_values(a: &Json, b: &Json) -> (r: Option<Order>)
    ensures
        r == value_order(a@, b@),
{
    match (a, b) {
        (Json::Number(x), Json::Number(y)) => order_numbers(x, y),
        (Json::Text(x), Json::Text(y)) => Some(compare_text(x.as_str(), y.as_str())),
        _ => None,
    }
}

fn pred_matches(value: &Json, pred: &Pred) -> (r: bool)
    ensures
        r == pred_holds(value@, pred@),
{
    match pred {
        Pred::Eq(rhs) => value.same(rhs),
        Pred::Ne(rhs) => !value.same(rhs),
        Pred::Lt(rhs) => match compare_values(value, rhs) {
            Some(o) => o == Order::Less,
            None => false,
        },
        Pred::Lte(rhs) => match compare_values(value, rhs) {
            Some(o) => o != Order::Greater,
            None => false,
        },
        Pred::Gt(rhs) => match compare_values(value, rhs) {
            Some(o) => o == Order::Greater,
            None => false,
        },
        Pred::Gte(rhs) => match compare_values(value, rhs) {
            Some(o) => o != Order::Less,
            None => false,
        },
        Pred::In(list) => has_element(list, value),
        Pred::Exists(want) => *want,
        Pred::Prefix(p) => match value {
            Json::Text(s) => starts_with(s.as_str(), p.as_str()),
            _ => false,
        },
        Pred::Contains(needle) => match (value, needle) {
            (Json::Text(hay), Json::Text(n)) => contains(hay.as_str(), n.as_str()),
            (Json::Array(items), n) => has_element(items, n),
            _ => false,
        },
    }
}

fn field_matches(value: Option<&Json>, pred: &Pred) -> (r: bool)
    ensures
        r == field_holds(
            match value {
                Some(v) => Some(v@),
                None => None,
            },
            pred@,
        ),
{
    match value {
        Some(v) => pred_matches(v, pred),
        None => match pred {
            Pred::Exists(want) => !*want,
            Pred::Ne(_) => true,
            _ => false,
        },
    }
}

fn all_match(parts: &Vec<Filter>, doc: &Json) -> (r: bool)
    ensures
        r == filter_matches(FilterView::And(filter_models(parts@)), doc@),
    decreases parts,
{
    let mut i: usize = 0;
    let ghost all = filter_models(parts@);
    while i < parts.len()
        invariant
            all == filter_models(parts@),
            i <= parts@.len(),
            forall|k: int| 0 <= k < i ==> filter_matches(#[trigger] all[k], doc@),
        decreases parts@.len() - i,
    {
        proof {
            assert(decreases_to!(*parts => parts@));
            assert(decreases_to!(parts@ => parts@[i as int]));
        }
        if !parts[i].matches(doc) {
            proof {
                let whole = FilterView::And(all);
                assert(!filter_matches(whole->And_0[i as int], doc@));
                assert(!filter_matches(whole, doc@));
            }
            return false;
        }
        i = i + 1;
    }
    true
}

fn any_matches(parts: &Vec<Filter>, doc: &Json) -> (r: bool)
    ensures
        r == filter_matches(FilterView::Or(filter_models(parts@)), doc@),
    decreases parts,
{
    let mut i: usize = 0;
    let ghost all = filter_models(parts@);
    while i < parts.len()
        invariant
            all == filter_models(parts@),
            i <= parts@.len(),
            forall|k: int| 0 <= k < i ==> !filter_matches(#[trigger] all[k], doc@),
        decreases parts@.len() - i,
    {
        proof {
            assert(decreases_to!(*parts => parts@));
            assert(decreases_to!(parts@ => parts@[i as int]));
        }
        if parts[i].matches(doc) {
            proof {
                let whole = FilterView::Or(all);
                assert(filter_matches(whole->Or_0[i as int], doc@));
                assert(filter_matches(whole, doc@));
            }
            return true;
        }
        i = i + 1;
    }
    false
}

impl Filter {
    /// Whether `doc` satisfies this filter.
    pub fn matches(&self, doc: &Json) -> (r: bool)
        ensures
            r == filter_matches(self@, doc@),
        decreases self,
    {
        match self {
            Filter::Always => true,
            Filter::Field { path, pred } => field_matches(
                resolve_path_value(doc, path.as_str()),
                pred,
            ),
            Filter::And(parts) => {
                proof {
                    assert(decreases_to!(*self => self->And_0));
                    lemma_and_filter_model(*parts);
                }
                all_match(parts, doc)
            },
            Filter::Or(parts) => {
                proof {
                    assert(decreases_to!(*self => self->Or_0));
                    lemma_or_filter_model(*parts);
                }
                any_matches(parts, doc)
            },
            Filter::Not(inner) => !inner.matches(doc),
        }
    }
}

/// Conjunction of filters: none is the filter that always matches, one is that
/// filter.
pub open spec fn conjunction(parts: Seq<FilterView>) -> FilterView {
    if parts.len() == 0 {
        FilterView::Always
    } else if parts.len() == 1 {
        parts[0]
    } else {
        FilterView::And(parts)
    }
}

/// Disjunction of filters: none is the filter that never matches, one is that
/// filter.
pub open spec fn disjunction(parts: Seq<FilterView>) -> FilterView {
    if parts.len() == 0 {
        FilterView::Not(Box::new(FilterView::Always))
    } else if parts.len() == 1 {
        parts[0]
    } else {
        FilterView::Or(parts)
    }
}

impl Filter {
    /// Matches everything.
    pub fn always() -> (r: Filter)
        ensures
            r@ == FilterView::Always,
    {
        Filter::Always
    }

    /// Starts a field predicate: `Filter::field("status").eq(..)`.
    pub fn field(path: &str) -> (r: FieldBuilder)
        ensures
            r@ == path@,
    {
        FieldBuilder { path: path.to_string() }
    }

    /// Conjunction of filters (empty is always true).
    pub fn and(parts: Vec<Filter>) -> (r: Filter)
        ensures
            r@ == conjunction(filter_models(parts@)),
    {
        if parts.len() == 0 {
            Filter::Always
        } else if parts.len() == 1 {
            let mut parts = parts;
            parts.swap_remove(0)
        } else {
            proof {
                lemma_and_filter_model(parts);
            }
            Filter::And(parts)
        }
    }

    /// Disjunction of filters (empty never matches).
    pub fn or(parts: Vec<Filter>) -> (r: Filter)
        ensures
            r@ == disjunction(filter_models(parts@)),
    {
        if parts.len() == 0 {
            proof {
                reveal_with_fuel(Filter::model, 2);
            }
            Filter::Not(Box::new(Filter::Always))
        } else if parts.len() == 1 {
            let mut parts = parts;
            parts.swap_remove(0)
        } else {
            proof {
                lemma_or_filter_model(parts);
            }
            Filter::Or(parts)
        }
    }

    /// Negation.
    pub fn not(inner: Filter) -> (r: Filter)
        ensures
            r@ == FilterView::Not(Box::new(inner@)),
    {
        Filter::Not(Box::new(inner))
    }
}

/// Builder for a single field predicate.
#[derive(Debug)]
pub struct FieldBuilder {
    path: String,
}

impl View for FieldBuilder {
    type V = Seq<char>;

    closed spec fn view(&self) -> Seq<char> {
        self.path@
    }
}

impl FieldBuilder {
    /// Equality.
    pub fn eq(self, value: Json) -> (r: Filter)
        ensures
            r@ == (FilterView::Field { path: self@, pred: PredView::Eq(value@) }),
    {
        Filter::Field { path: self.path, pred: Pred::Eq(value) }
    }

    /// Inequality.
    pub fn ne(self, value: Json) -> (r: Filter)
        ensures
            r@ == (FilterView::Field { path: self@, pred: PredView::Ne(value@) }),
    {
        Filter::Field { path: self.path, pred: Pred::Ne(value) }
    }

    /// Less-than.
    pub fn lt(self, value: Json) -> (r: Filter)
        ensures
            r@ == (FilterView::Field { path: self@, pred: PredView::Lt(value@) }),
    {
        Filter::Field { path: self.path, pred: Pred::Lt(value) }
    }

    /// Less-or-equal.
    pub fn lte(self, value: Json) -> (r: Filter)
        ensures
            r@ == (FilterView::Field { path: self@, pred: PredView::Lte(value@) }),
    {
        Filter::Field { path: self.path, pred: Pred::Lte(value) }
    }

    /// Greater-than.
    pub fn gt(self, value: Json) -> (r: Filter)
        ensures
            r@ == (FilterView::Field { path: self@, pred: PredView::Gt(value@) }),
    {
        Filter::Field { path: self.path, pred: Pred::Gt(value) }
    }

    /// Greater-or-equal.
    pub fn gte(self, value: Json) -> (r: Filter)
        ensures
            r@ == (FilterView::Field { path: self@, pred: PredView::Gte(value@) }),
    {
        Filter::Field { path: self.path, pred: Pred::Gte(value) }
    }

    /// String or array containment.
    pub fn contains(self, value: Json) -> (r: Filter)
        ensures
            r@ == (FilterView::Field { path: self@, pred: PredView::Contains(value@) }),
    {
        Filter::Field { path: self.path, pred: Pred::Contains(value) }
    }

    /// Membership.
    pub fn is_in(self, values: Vec<Json>) -> (r: Filter)
        ensures
            r@ == (FilterView::Field { path: self@, pred: PredView::In(models(values@)) }),
    {
        Filter::Field { path: self.path, pred: Pred::In(values) }
    }

    /// The field must exist (`true`) or be absent (`false`).
    pub fn presence(self, present: bool) -> (r: Filter)
        ensures
            r@ == (FilterView::Field { path: self@, pred: PredView::Exists(present) }),
    {
        Filter::Field { path: self.path, pred: Pred::Exists(present) }
    }

    /// String prefix match.
    pub fn prefix(self, prefix: &str) -> (r: Filter)
        ensures
            r@ == (FilterView::Field { path: self@, pred: PredView::Prefix(prefix@) }),
    {
        Filter::Field { path: self.path, pred: Pred::Prefix(prefix.to_string()) }
    }
}

/// The predicate that an operator and its right-hand side make.
pub open spec fn pred_in(op: Seq<char>, rhs: JsonView) -> Result<PredView, ErrorView> {
    if op == "$eq"@ {
        Ok(PredView::Eq(rhs))
    } else if op == "$ne"@ {
        Ok(PredView::Ne(rhs))
    } else if op == "$lt"@ {
        Ok(PredView::Lt(rhs))
    } else if op == "$lte"@ {
        Ok(PredView::Lte(rhs))
    } else if op == "$gt"@ {
        Ok(PredView::Gt(rhs))
    } else if op == "$gte"@ {
        Ok(PredView::Gte(rhs))
    } else if op == "$in"@ {
        match rhs {
            JsonView::Array(items) => Ok(PredView::In(items)),
            _ => Err(ErrorView::QueryInvalid("$in expects an array"@)),
        }
    } else if op == "$exists"@ {
        match rhs {
            JsonView::Bool(b) => Ok(PredView::Exists(b)),
            _ => Err(ErrorView::QueryInvalid("$exists expects a boolean"@)),
        }
    } else if op == "$prefix"@ {
        match rhs {
            JsonView::Text(s) => Ok(PredView::Prefix(s)),
            _ => Err(ErrorView::QueryInvalid("$prefix expects a string"@)),
        }
    } else if op == "$contains"@ {
        Ok(PredView::Contains(rhs))
    } else {
        Err(ErrorView::QueryInvalid("unknown filter operator "@ + debug_quoted(op)))
    }
}

/// The field filters that the operators of one field make, in order; the first
/// refusal counts.
pub open spec fn operators_in(
    path: Seq<char>,
    m: Seq<(Seq<char>, JsonView)>,
) -> Result<Seq<FilterView>, ErrorView>
    decreases m.len(),
{
    if m.len() == 0 {
        Ok(Seq::empty())
    } else {
        match operators_in(path, m.drop_last()) {
            Err(e) => Err(e),
            Ok(done) => match pred_in(m.last().0, m.last().1) {
                Err(e) => Err(e),
                Ok(pred) => Ok(done.push(FilterView::Field { path, pred })),
            },
        }
    }
}

/// The filter that a field's value makes: a bare value is equality, an object
/// is operators taken together.
pub open spec fn field_in(path: Seq<char>, value: JsonView) -> Result<FilterView, ErrorView> {
    match value {
        JsonView::Object(m) => if m.len() == 0 {
            Err(ErrorView::QueryInvalid("empty operator object for field "@ + debug_quoted(path)))
        } else {
            match operators_in(path, m) {
                Err(e) => Err(e),
                Ok(parts) => Ok(conjunction(parts)),
            }
        },
        _ => Ok(FilterView::Field { path, pred: PredView::Eq(value) }),
    }
}

/// A key that names an operator.
pub open spec fn operator_key(key: Seq<char>) -> bool {
    begins_with(key, "$"@)
}

/// The filters that the members of an object make, in order; the first refusal
/// counts.
pub open spec fn fields_in(m: Seq<(Seq<char>, JsonView)>) -> Result<Seq<FilterView>, ErrorView>
    decreases m.len(),
{
    if m.len() == 0 {
        Ok(Seq::empty())
    } else {
        match fields_in(m.drop_last()) {
            Err(e) => Err(e),
            Ok(done) => if operator_key(m.last().0) {
                Err(
                    ErrorView::QueryInvalid(
                        "unexpected operator key "@ + debug_quoted(m.last().0)
                            + " among field predicates"@,
                    ),
                )
            } else {
                match field_in(m.last().0, m.last().1) {
                    Err(e) => Err(e),
                    Ok(f) => Ok(done.push(f)),
                }
            },
        }
    }
}

/// The filter that a JSON object makes, or why it makes none. Several members
/// are taken together; a combinator stands alone.
pub open spec fn filter_in(v: JsonView) -> Result<FilterView, ErrorView>
    decreases v,
{
    match v {
        JsonView::Object(m) => if m.len() == 0 {
            Ok(FilterView::Always)
        } else if m.len() == 1 && lookup(m, "$and"@) is Some {
            match lookup(m, "$and"@)->0 {
                JsonView::Array(items) => {
                    proof {
                        crate::json::lemma_lookup_smaller(m, "$and"@);
                        assert(decreases_to!(v => v->Object_0));
                        let found = lookup(m, "$and"@)->0;
                        assert(decreases_to!(found => found->Array_0));
                    }
                    match filters_in(items) {
                        Err(e) => Err(e),
                        Ok(parts) => Ok(conjunction(parts)),
                    }
                },
                _ => Err(ErrorView::QueryInvalid("$and expects an array"@)),
            }
        } else if m.len() == 1 && lookup(m, "$or"@) is Some {
            match lookup(m, "$or"@)->0 {
                JsonView::Array(items) => {
                    proof {
                        crate::json::lemma_lookup_smaller(m, "$or"@);
                        assert(decreases_to!(v => v->Object_0));
                        let found = lookup(m, "$or"@)->0;
                        assert(decreases_to!(found => found->Array_0));
                    }
                    match filters_in(items) {
                        Err(e) => Err(e),
                        Ok(parts) => Ok(disjunction(parts)),
                    }
                },
                _ => Err(ErrorView::QueryInvalid("$or expects an array"@)),
            }
        } else if m.len() == 1 && lookup(m, "$not"@) is Some {
            proof {
                crate::json::lemma_lookup_smaller(m, "$not"@);
                assert(decreases_to!(v => v->Object_0));
            }
            match filter_in(lookup(m, "$not"@)->0) {
                Err(e) => Err(e),
                Ok(f) => Ok(FilterView::Not(Box::new(f))),
            }
        } else {
            match fields_in(m) {
                Err(e) => Err(e),
                Ok(parts) => Ok(conjunction(parts)),
            }
        },
        _ => Err(ErrorView::QueryInvalid("filter must be a JSON object"@)),
    }
}

/// The filters that a JSON array makes; the first refusal counts.
pub open spec fn filters_in(items: Seq<JsonView>) -> Result<Seq<FilterView>, ErrorView>
    decreases items,
{
    if items.len() == 0 {
        Ok(Seq::empty())
    } else {
        proof {
            assert(decreases_to!(items => items.subrange(0, items.len() - 1)));
            assert(items.drop_last() == items.subrange(0, items.len() - 1));
            assert(decreases_to!(items => items[items.len() - 1]));
        }
        match filters_in(items.drop_last()) {
            Err(e) => Err(e),
            Ok(done) => match filter_in(items.last()) {
                Err(e) => Err(e),
                Ok(f) => Ok(done.push(f)),
            },
        }
    }
}

proof fn lemma_filters_refused(items: Seq<JsonView>, n: int)
    requires
        0 <= n <= items.len(),
        filters_in(items.take(n)) is Err,
    ensures
        filters_in(items) == filters_in(items.take(n)),
    decreases items.len() - n,
{
    if n == items.len() {
        assert(items.take(n) =~= items);
    } else {
        assert(items.take(n + 1).drop_last() =~= items.take(n));
        lemma_filters_refused(items, n + 1);
    }
}

proof fn lemma_fields_refused(m: Seq<(Seq<char>, JsonView)>, n: int)
    requires
        0 <= n <= m.len(),
        fields_in(m.take(n)) is Err,
    ensures
        fields_in(m) == fields_in(m.take(n)),
    decreases m.len() - n,
{
    if n == m.len() {
        assert(m.take(n) =~= m);
    } else {
        assert(m.take(n + 1).drop_last() =~= m.take(n));
        lemma_fields_refused(m, n + 1);
    }
}

proof fn lemma_operators_refused(path: Seq<char>, m: Seq<(Seq<char>, JsonView)>, n: int)
    requires
        0 <= n <= m.len(),
        operators_in(path, m.take(n)) is Err,
    ensures
        operators_in(path, m) == operators_in(path, m.take(n)),
    decreases m.len() - n,
{
    if n == m.len() {
        assert(m.take(n) =~= m);
    } else {
        assert(m.take(n + 1).drop_last() =~= m.take(n));
        lemma_operators_refused(path, m, n + 1);
    }
}

fn pred_from_json(op: &str, rhs: &Json) -> (r: Result<Pred, Error>)
    ensures
        outcome(r) == pred_in(op@, rhs@),
{
    if same_text(op, "$eq") {
        Ok(Pred::Eq(rhs.clone()))
    } else if same_text(op, "$ne") {
        Ok(Pred::Ne(rhs.clone()))
    } else if same_text(op, "$lt") {
        Ok(Pred::Lt(rhs.clone()))
    } else if same_text(op, "$lte") {
        Ok(Pred::Lte(rhs.clone()))
    } else if same_text(op, "$gt") {
        Ok(Pred::Gt(rhs.clone()))
    } else if same_text(op, "$gte") {
        Ok(Pred::Gte(rhs.clone()))
    } else if same_text(op, "$in") {
        match rhs {
            Json::Array(items) => Ok(Pred::In(clone_values(items))),
            _ => Err(query_invalid("$in expects an array")),
        }
    } else if same_text(op, "$exists") {
        match rhs {
            Json::Bool(b) => Ok(Pred::Exists(*b)),
            _ => Err(query_invalid("$exists expects a boolean")),
        }
    } else if same_text(op, "$prefix") {
        match rhs {
            Json::Text(s) => Ok(Pred::Prefix(s.clone())),
            _ => Err(query_invalid("$prefix expects a string")),
        }
    } else if same_text(op, "$contains") {
        Ok(Pred::Contains(rhs.clone()))
    } else {
        Err(Error::QueryInvalid(cat2("unknown filter operator ", debug_text(op).as_str())))
    }
}

fn parse_field_pred(path: &str, value: &Json) -> (r: Result<Filter, Error>)
    ensures
        outcome(r) == field_in(path@, value@),
{
    match value {
        Json::Object(m) => {
            if m.is_empty() {
                return Err(
                    Error::QueryInvalid(
                        cat2("empty operator object for field ", debug_text(path).as_str()),
                    ),
                );
            }
            let mut parts: Vec<Filter> = Vec::new();
            let mut i: usize = 0;
            let ghost all = m@;
            proof {
                assert(all.take(0) =~= Seq::<(Seq<char>, JsonView)>::empty());
                assert(filter_models(parts@) =~= Seq::<FilterView>::empty());
            }
            while i < m.entries.len()
                invariant
                    all == m@,
                    value@ == JsonView::Object(all),
                    all.len() > 0,
                    i <= m.entries@.len(),
                    operators_in(path@, all.take(i as int)) == Ok::<Seq<FilterView>, ErrorView>(
                        filter_models(parts@),
                    ),
                decreases m.entries@.len() - i,
            {
                proof {
                    assert(all.take(i + 1).drop_last() =~= all.take(i as int));
                    assert(all.take(i + 1).last() == all[i as int]);
                }
                match pred_from_json(m.entries[i].0.as_str(), &m.entries[i].1) {
                    Ok(pred) => {
                        let ghost before = filter_models(parts@);
                        let part = Filter::Field { path: path.to_string(), pred };
                        parts.push(part);
                        proof {
                            assert(filter_models(parts@) =~= before.push(part@));
                        }
                    },
                    Err(e) => {
                        proof {
                            lemma_operators_refused(path@, all, i + 1);
                        }
                        return Err(e);
                    },
                }
                i = i + 1;
            }
            proof {
                assert(all.take(all.len() as int) =~= all);
            }
            Ok(Filter::and(parts))
        },
        _ => Ok(Filter::Field { path: path.to_string(), pred: Pred::Eq(value.clone()) }),
    }
}

fn parse_fields(m: &JsonMap) -> (r: Result<Vec<Filter>, Error>)
    ensures
        match r {
            Ok(v) => fields_in(m@) == Ok::<Seq<FilterView>, ErrorView>(filter_models(v@)),
            Err(e) => fields_in(m@) == Err::<Seq<FilterView>, ErrorView>(e@),
        },
{
    let mut parts: Vec<Filter> = Vec::new();
    let mut i: usize = 0;
    let ghost all = m@;
    proof {
        assert(all.take(0) =~= Seq::<(Seq<char>, JsonView)>::empty());
        assert(filter_models(parts@) =~= Seq::<FilterView>::empty());
    }
    while i < m.entries.len()
        invariant
            all == m@,
            i <= m.entries@.len(),
            fields_in(all.take(i as int)) == Ok::<Seq<FilterView>, ErrorView>(
                filter_models(parts@),
            ),
        decreases m.entries@.len() - i,
    {
        proof {
            assert(all.take(i + 1).drop_last() =~= all.take(i as int));
            assert(all.take(i + 1).last() == all[i as int]);
        }
        let key = m.entries[i].0.as_str();
        if starts_with(key, "$") {
            proof {
                lemma_fields_refused(all, i + 1);
            }
            return Err(
                Error::QueryInvalid(
                    cat3(
                        "unexpected operator key ",
                        debug_text(key).as_str(),
                        " among field predicates",
                    ),
                ),
            );
        }
        match parse_field_pred(key, &m.entries[i].1) {
            Ok(f) => {
                let ghost before = filter_models(parts@);
                parts.push(f);
                proof {
                    assert(filter_models(parts@) =~= before.push(f@));
                }
            },
            Err(e) => {
                proof {
                    lemma_fields_refused(all, i + 1);
                }
                return Err(e);
            },
        }
        i = i + 1;
    }
    proof {
        assert(all.take(all.len() as int) =~= all);
    }
    Ok(parts)
}

fn parse_filter_list(items: &Vec<Json>) -> (r: Result<Vec<Filter>, Error>)
    ensures
        match r {
            Ok(v) => filters_in(models(items@)) == Ok::<Seq<FilterView>, ErrorView>(
                filter_models(v@),
            ),
            Err(e) => filters_in(models(items@)) == Err::<Seq<FilterView>, ErrorView>(e@),
        },
    decreases items,
{
    let mut parts: Vec<Filter> = Vec::new();
    let mut i: usize = 0;
    let ghost all = models(items@);
    proof {
        assert(all.take(0) =~= Seq::<JsonView>::empty());
        assert(filter_models(parts@) =~= Seq::<FilterView>::empty());
    }
    while i < items.len()
        invariant
            all == models(items@),
            i <= items@.len(),
            filters_in(all.take(i as int)) == Ok::<Seq<FilterView>, ErrorView>(
                filter_models(parts@),
            ),
        decreases items@.len() - i,
    {
        proof {
            assert(all.take(i + 1).drop_last() =~= all.take(i as int));
            assert(all.take(i + 1).last() == items@[i as int]@);
            assert(decreases_to!(*items => items@));
            assert(decreases_to!(items@ => items@[i as int]));
        }
        match parse_filter(&items[i]) {
            Ok(f) => {
                let ghost before = filter_models(parts@);
                parts.push(f);
                proof {
                    assert(filter_models(parts@) =~= before.push(f@));
                }
            },
            Err(e) => {
                proof {
                    lemma_filters_refused(all, i + 1);
                }
                return Err(e);
            },
        }
        i = i + 1;
    }
    proof {
        assert(all.take(all.len() as int) =~= all);
    }
    Ok(parts)
}

fn parse_filter(value: &Json) -> (r: Result<Filter, Error>)
    ensures
        outcome(r) == filter_in(value@),
    decreases value,
{
    match value {
        Json::Object(m) => {
            proof {
                assert(decreases_to!(*value => value->Object_0));
            }
            if m.is_empty() {
                return Ok(Filter::Always);
            }
            if m.len() == 1 {
                match m.get("$and") {
                    Some(Json::Array(items)) => {
                        proof {
                            let found = Json::Array(*items);
                            assert(decreases_to!(found => found->Array_0));
                        }
                        let parts = parse_filter_list(items)?;
                        return Ok(Filter::and(parts));
                    },
                    Some(_) => {
                        return Err(query_invalid("$and expects an array"));
                    },
                    None => {},
                }
                match m.get("$or") {
                    Some(Json::Array(items)) => {
                        proof {
                            let found = Json::Array(*items);
                            assert(decreases_to!(found => found->Array_0));
                        }
                        let parts = parse_filter_list(items)?;
                        return Ok(Filter::or(parts));
                    },
                    Some(_) => {
                        return Err(query_invalid("$or expects an array"));
                    },
                    None => {},
                }
                match m.get("$not") {
                    Some(inner) => {
                        let f = parse_filter(inner)?;
                        return Ok(Filter::not(f));
                    },
                    None => {},
                }
            }
            let parts = parse_fields(m)?;
            Ok(Filter::and(parts))
        },
        _ => Err(query_invalid("filter must be a JSON object")),
    }
}

impl Filter {
    /// Parses an object filter from JSON.
    ///
    /// - `{ "status": "active" }` is equality
    /// - `{ "age": { "$gte": 18 } }` is a comparison; likewise `$in`, `$ne`,
    ///   `$exists`, `$prefix`, `$contains`
    /// - `{ "$and": [ .. ] }`, `{ "$or": [ .. ] }`, `{ "$not": { .. } }`
    ///
    /// Several top-level keys are taken together.
    pub fn from_json(value: &Json) -> (r: Result<Filter, Error>)
        ensures
            outcome(r) == filter_in(value@),
    {
        parse_filter(value)
    }
}

/// An object with one member.
pub open spec fn single(key: Seq<char>, value: JsonView) -> JsonView {
    JsonView::Object(with_member(Seq::empty(), key, value))
}

/// The JSON of a field predicate: equality is the bare value, unless that is an
/// object, which would read as operators; anything else is an operator object.
pub open spec fn pred_json(pred: PredView) -> JsonView {
    match pred {
        PredView::Eq(v) => if v is Object {
            single("$eq"@, v)
        } else {
            v
        },
        PredView::Ne(v) => single("$ne"@, v),
        PredView::Lt(v) => single("$lt"@, v),
        PredView::Lte(v) => single("$lte"@, v),
        PredView::Gt(v) => single("$gt"@, v),
        PredView::Gte(v) => single("$gte"@, v),
        PredView::In(list) => single("$in"@, JsonView::Array(list)),
        PredView::Exists(b) => single("$exists"@, JsonView::Bool(b)),
        PredView::Prefix(s) => single("$prefix"@, JsonView::Text(s)),
        PredView::Contains(v) => single("$contains"@, v),
    }
}

/// One object for all parts, where every part is a field predicate and no two
/// are on one path.
pub open spec fn flat_members(parts: Seq<FilterView>) -> Option<Seq<(Seq<char>, JsonView)>>
    decreases parts.len(),
{
    if parts.len() == 0 {
        Some(Seq::empty())
    } else {
        match (flat_members(parts.drop_last()), parts.last()) {
            (Some(m), FilterView::Field { path, pred }) => if lookup(m, path) is None {
                Some(with_member(m, path, pred_json(pred)))
            } else {
                None
            },
            _ => None,
        }
    }
}

/// The JSON object of a filter.
pub open spec fn filter_json(f: FilterView) -> JsonView
    decreases f,
{
    match f {
        FilterView::Always => JsonView::Object(Seq::empty()),
        FilterView::Field { path, pred } => single(path, pred_json(pred)),
        FilterView::And(parts) => if parts.len() == 0 {
            JsonView::Object(Seq::empty())
        } else if parts.len() == 1 {
            filter_json(parts[0])
        } else {
            match flat_members(parts) {
                Some(m) => JsonView::Object(m),
                None => single("$and"@, JsonView::Array(filter_jsons(parts))),
            }
        },
        FilterView::Or(parts) => if parts.len() == 0 {
            single("$not"@, JsonView::Object(Seq::empty()))
        } else if parts.len() == 1 {
            filter_json(parts[0])
        } else {
            single("$or"@, JsonView::Array(filter_jsons(parts)))
        },
        FilterView::Not(inner) => single("$not"@, filter_json(*inner)),
    }
}

/// The JSON object of each filter of a list.
pub open spec fn filter_jsons(parts: Seq<FilterView>) -> Seq<JsonView>
    decreases parts,
{
    Seq::new(
        parts.len(),
        |i: int|
            if 0 <= i < parts.len() {
                filter_json(parts[i])
            } else {
                JsonView::Null
            },
    )
}

fn single_map(key: &str, value: Json) -> (r: Json)
    ensures
        r@ == single(key@, value@),
{
    let mut m = JsonMap::new();
    m.insert(key.to_string(), value);
    Json::Object(m)
}

fn pred_to_json(pred: &Pred) -> (r: Json)
    ensures
        r@ == pred_json(pred@),
{
    match pred {
        Pred::Eq(v) => match v {
            Json::Object(_) => single_map("$eq", v.clone()),
            _ => v.clone(),
        },
        Pred::Ne(v) => single_map("$ne", v.clone()),
        Pred::Lt(v) => single_map("$lt", v.clone()),
        Pred::Lte(v) => single_map("$lte", v.clone()),
        Pred::Gt(v) => single_map("$gt", v.clone()),
        Pred::Gte(v) => single_map("$gte", v.clone()),
        Pred::In(list) => single_map("$in", Json::Array(clone_values(list))),
        Pred::Exists(b) => single_map("$exists", Json::Bool(*b)),
        Pred::Prefix(s) => single_map("$prefix", Json::Text(s.clone())),
        Pred::Contains(v) => single_map("$contains", v.clone()),
    }
}

proof fn lemma_flat_refused(parts: Seq<FilterView>, n: int)
    requires
        0 <= n <= parts.len(),
        flat_members(parts.take(n)) is None,
    ensures
        flat_members(parts) is None,
    decreases parts.len() - n,
{
    if n == parts.len() {
        assert(parts.take(n) =~= parts);
    } else {
        assert(parts.take(n + 1).drop_last() =~= parts.take(n));
        lemma_flat_refused(parts, n + 1);
    }
}

fn flat_object(parts: &Vec<Filter>) -> (r: Option<JsonMap>)
    ensures
        match r {
            Some(m) => flat_members(filter_models(parts@)) == Some(m@),
            None => flat_members(filter_models(parts@)) is None,
        },
{
    let mut m = JsonMap::new();
    let mut i: usize = 0;
    let ghost all = filter_models(parts@);
    proof {
        assert(all.take(0) =~= Seq::<FilterView>::empty());
    }
    while i < parts.len()
        invariant
            all == filter_models(parts@),
            i <= parts@.len(),
            flat_members(all.take(i as int)) == Some(m@),
        decreases parts@.len() - i,
    {
        proof {
            assert(all.take(i + 1).drop_last() =~= all.take(i as int));
            assert(all.take(i + 1).last() == parts@[i as int]@);
        }
        match &parts[i] {
            Filter::Field { path, pred } => {
                if m.get(path.as_str()).is_some() {
                    proof {
                        lemma_flat_refused(all, i + 1);
                    }
                    return None;
                }
                m.insert(path.clone(), pred_to_json(pred));
            },
            _ => {
                proof {
                    lemma_flat_refused(all, i + 1);
                }
                return None;
            },
        }
        i = i + 1;
    }
    proof {
        assert(all.take(all.len() as int) =~= all);
    }
    Some(m)
}

fn filters_to_json(parts: &Vec<Filter>) -> (r: Vec<Json>)
    ensures
        models(r@) == filter_jsons(filter_models(parts@)),
    decreases parts,
{
    let mut out: Vec<Json> = Vec::new();
    for i in 0..parts.len()
        invariant
            out@.len() == i,
            forall|k: int| 0 <= k < i ==> out@[k]@ == filter_json(parts@[k]@),
    {
        proof {
            assert(decreases_to!(*parts => parts@));
            assert(decreases_to!(parts@ => parts@[i as int]));
        }
        out.push(parts[i].to_json());
    }
    proof {
        assert(models(out@) =~= filter_jsons(filter_models(parts@)));
    }
    out
}

impl Filter {
    /// Encodes this filter as a JSON object that [`Filter::from_json`] parses.
    pub fn to_json(&self) -> (r: Json)
        ensures
            r@ == filter_json(self@),
        decreases self,
    {
        match self {
            Filter::Always => Json::Object(JsonMap::new()),
            Filter::Field { path, pred } => single_map(path.as_str(), pred_to_json(pred)),
            Filter::And(parts) => {
                proof {
                    assert(decreases_to!(*self => self->And_0));
                    lemma_and_filter_model(*parts);
                }
                if parts.len() == 0 {
                    return Json::Object(JsonMap::new());
                }
                if parts.len() == 1 {
                    proof {
                        assert(decreases_to!(*parts => parts@));
                        assert(decreases_to!(parts@ => parts@[0]));
                    }
                    return parts[0].to_json();
                }
                match flat_object(parts) {
                    Some(m) => Json::Object(m),
                    None => single_map("$and", Json::Array(filters_to_json(parts))),
                }
            },
            Filter::Or(parts) => {
                proof {
                    assert(decreases_to!(*self => self->Or_0));
                    lemma_or_filter_model(*parts);
                }
                if parts.len() == 0 {
                    return single_map("$not", Json::Object(JsonMap::new()));
                }
                if parts.len() == 1 {
                    proof {
                        assert(decreases_to!(*parts => parts@));
                        assert(decreases_to!(parts@ => parts@[0]));
                    }
                    return parts[0].to_json();
                }
                single_map("$or", Json::Array(filters_to_json(parts)))
            },
            Filter::Not(inner) => single_map("$not", inner.to_json()),
        }
    }
}

/// Two filters match the same documents.
pub open spec fn same_meaning(f: FilterView, g: FilterView) -> bool {
    forall|doc: JsonView| filter_matches(f, doc) == #[trigger] filter_matches(g, doc)
}

/// A filter whose JSON says what it means: no path looks like an operator.
pub open spec fn encodable(f: FilterView) -> bool
    decreases f,
{
    match f {
        FilterView::Always => true,
        FilterView::Field { path, .. } => !operator_key(path),
        FilterView::And(parts) => forall|i: int|
            0 <= i < parts.len() ==> encodable(#[trigger] parts[i]),
        FilterView::Or(parts) => forall|i: int|
            0 <= i < parts.len() ==> encodable(#[trigger] parts[i]),
        FilterView::Not(inner) => encodable(*inner),
    }
}

/// No two operator names are the same, and each starts with `$`.
proof fn lemma_operators_differ()
    ensures
        "$eq"@ != "$ne"@,
        "$eq"@ != "$lt"@,
        "$eq"@ != "$lte"@,
        "$eq"@ != "$gt"@,
        "$eq"@ != "$gte"@,
        "$eq"@ != "$in"@,
        "$eq"@ != "$exists"@,
        "$eq"@ != "$prefix"@,
        "$eq"@ != "$contains"@,
        "$eq"@ != "$and"@,
        "$eq"@ != "$or"@,
        "$eq"@ != "$not"@,
        "$ne"@ != "$lt"@,
        "$ne"@ != "$lte"@,
        "$ne"@ != "$gt"@,
        "$ne"@ != "$gte"@,
        "$ne"@ != "$in"@,
        "$ne"@ != "$exists"@,
        "$ne"@ != "$prefix"@,
        "$ne"@ != "$contains"@,
        "$ne"@ != "$and"@,
        "$ne"@ != "$or"@,
        "$ne"@ != "$not"@,
        "$lt"@ != "$lte"@,
        "$lt"@ != "$gt"@,
        "$lt"@ != "$gte"@,
        "$lt"@ != "$in"@,
        "$lt"@ != "$exists"@,
        "$lt"@ != "$prefix"@,
        "$lt"@ != "$contains"@,
        "$lt"@ != "$and"@,
        "$lt"@ != "$or"@,
        "$lt"@ != "$not"@,
        "$lte"@ != "$gt"@,
        "$lte"@ != "$gte"@,
        "$lte"@ != "$in"@,
        "$lte"@ != "$exists"@,
        "$lte"@ != "$prefix"@,
        "$lte"@ != "$contains"@,
        "$lte"@ != "$and"@,
        "$lte"@ != "$or"@,
        "$lte"@ != "$not"@,
        "$gt"@ != "$gte"@,
        "$gt"@ != "$in"@,
        "$gt"@ != "$exists"@,
        "$gt"@ != "$prefix"@,
        "$gt"@ != "$contains"@,
        "$gt"@ != "$and"@,
        "$gt"@ != "$or"@,
        "$gt"@ != "$not"@,
        "$gte"@ != "$in"@,
        "$gte"@ != "$exists"@,
        "$gte"@ != "$prefix"@,
        "$gte"@ != "$contains"@,
        "$gte"@ != "$and"@,
        "$gte"@ != "$or"@,
        "$gte"@ != "$not"@,
        "$in"@ != "$exists"@,
        "$in"@ != "$prefix"@,
        "$in"@ != "$contains"@,
        "$in"@ != "$and"@,
        "$in"@ != "$or"@,
        "$in"@ != "$not"@,
        "$exists"@ != "$prefix"@,
        "$exists"@ != "$contains"@,
        "$exists"@ != "$and"@,
        "$exists"@ != "$or"@,
        "$exists"@ != "$not"@,
        "$prefix"@ != "$contains"@,
        "$prefix"@ != "$and"@,
        "$prefix"@ != "$or"@,
        "$prefix"@ != "$not"@,
        "$contains"@ != "$and"@,
        "$contains"@ != "$or"@,
        "$contains"@ != "$not"@,
        "$and"@ != "$or"@,
        "$and"@ != "$not"@,
        "$or"@ != "$not"@,
        operator_key("$and"@),
        operator_key("$or"@),
        operator_key("$not"@),
{
    reveal_strlit("$");
    assert("$"@.len() == 1);
    reveal_strlit("$eq");
    assert("$eq"@.len() == 3);
    reveal_strlit("$ne");
    assert("$ne"@.len() == 3);
    reveal_strlit("$lt");
    assert("$lt"@.len() == 3);
    reveal_strlit("$lte");
    assert("$lte"@.len() == 4);
    reveal_strlit("$gt");
    assert("$gt"@.len() == 3);
    reveal_strlit("$gte");
    assert("$gte"@.len() == 4);
    reveal_strlit("$in");
    assert("$in"@.len() == 3);
    reveal_strlit("$exists");
    assert("$exists"@.len() == 7);
    reveal_strlit("$prefix");
    assert("$prefix"@.len() == 7);
    reveal_strlit("$contains");
    assert("$contains"@.len() == 9);
    reveal_strlit("$and");
    assert("$and"@.len() == 4);
    reveal_strlit("$or");
    assert("$or"@.len() == 3);
    reveal_strlit("$not");
    assert("$not"@.len() == 4);
    assert("$eq"@[1] != "$ne"@[1]);
    assert("$eq"@[1] != "$lt"@[1]);
    assert("$eq"@[1] != "$gt"@[1]);
    assert("$eq"@[1] != "$in"@[1]);
    assert("$eq"@[1] != "$or"@[1]);
    assert("$ne"@[1] != "$lt"@[1]);
    assert("$ne"@[1] != "$gt"@[1]);
    assert("$ne"@[1] != "$in"@[1]);
    assert("$ne"@[1] != "$or"@[1]);
    assert("$lt"@[1] != "$gt"@[1]);
    assert("$lt"@[1] != "$in"@[1]);
    assert("$lt"@[1] != "$or"@[1]);
    assert("$lte"@[1] != "$gte"@[1]);
    assert("$lte"@[1] != "$and"@[1]);
    assert("$lte"@[1] != "$not"@[1]);
    assert("$gt"@[1] != "$in"@[1]);
    assert("$gt"@[1] != "$or"@[1]);
    assert("$gte"@[1] != "$and"@[1]);
    assert("$gte"@[1] != "$not"@[1]);
    assert("$in"@[1] != "$or"@[1]);
    assert("$exists"@[1] != "$prefix"@[1]);
    assert("$and"@[1] != "$not"@[1]);
    assert("$and"@.take(1) =~= "$"@);
    assert("$or"@.take(1) =~= "$"@);
    assert("$not"@.take(1) =~= "$"@);
}

/// A single member is all there is to look up.
proof fn lemma_single(key: Seq<char>, value: JsonView)
    ensures
        with_member(Seq::empty(), key, value) == seq![(key, value)],
        forall|other: Seq<char>|
            #[trigger] lookup(seq![(key, value)], other) == (if other == key {
                Some(value)
            } else {
                None
            }),
{
    reveal_with_fuel(lookup, 2);
    assert(seq![(key, value)].drop_first() =~= Seq::<(Seq<char>, JsonView)>::empty());
}

/// The JSON of one field predicate reads back as that predicate.
proof fn lemma_field_reads_back(path: Seq<char>, pred: PredView)
    ensures
        field_in(path, pred_json(pred)) == Ok::<FilterView, ErrorView>(
            FilterView::Field { path, pred },
        ),
{
    lemma_operators_differ();
    let want = FilterView::Field { path, pred };
    if pred_json(pred) is Object {
        let m = pred_json(pred)->Object_0;
        let (op, rhs) = match pred {
            PredView::Eq(v) => ("$eq"@, v),
            PredView::Ne(v) => ("$ne"@, v),
            PredView::Lt(v) => ("$lt"@, v),
            PredView::Lte(v) => ("$lte"@, v),
            PredView::Gt(v) => ("$gt"@, v),
            PredView::Gte(v) => ("$gte"@, v),
            PredView::In(list) => ("$in"@, JsonView::Array(list)),
            PredView::Exists(b) => ("$exists"@, JsonView::Bool(b)),
            PredView::Prefix(s) => ("$prefix"@, JsonView::Text(s)),
            PredView::Contains(v) => ("$contains"@, v),
        };
        lemma_single(op, rhs);
        assert(m == seq![(op, rhs)]);
        assert(m.drop_last() =~= Seq::empty());
        assert(pred_in(op, rhs) == Ok::<PredView, ErrorView>(pred));
        assert(operators_in(path, m.drop_last()) == Ok::<Seq<FilterView>, ErrorView>(Seq::empty()));
        assert(operators_in(path, m) == Ok::<Seq<FilterView>, ErrorView>(
            Seq::<FilterView>::empty().push(want),
        ));
    }
}

/// A new member joins the others and changes none.
proof fn lemma_with_new_member(m: Seq<(Seq<char>, JsonView)>, key: Seq<char>, value: JsonView)
    requires
        lookup(m, key) is None,
    ensures
        with_member(m, key, value).len() == m.len() + 1,
        forall|x: (Seq<char>, JsonView)|
            #[trigger] with_member(m, key, value).contains(x) <==> m.contains(x) || x == (
                key,
                value,
            ),
    decreases m.len(),
{
    let out = with_member(m, key, value);
    if m.len() == 0 {
        assert(out =~= seq![(key, value)]);
        assert forall|x: (Seq<char>, JsonView)| #[trigger]
            out.contains(x) <==> m.contains(x) || x == (key, value) by {
            if x == (key, value) {
                assert(out[0] == x);
            }
        }
    } else {
        crate::text::lemma_text_order_equal(key, m[0].0);
        let rest = m.drop_first();
        match text_order(key, m[0].0) {
            Order::Less => {
                assert forall|x: (Seq<char>, JsonView)| #[trigger]
                    out.contains(x) <==> m.contains(x) || x == (key, value) by {
                    if m.contains(x) {
                        let i = choose|i: int| 0 <= i < m.len() && m[i] == x;
                        assert(out[i + 1] == x);
                    }
                    if x == (key, value) {
                        assert(out[0] == x);
                    }
                    if out.contains(x) {
                        let i = choose|i: int| 0 <= i < out.len() && out[i] == x;
                        if i > 0 {
                            assert(m[i - 1] == x);
                        }
                    }
                }
            },
            Order::Equal => {},
            Order::Greater => {
                lemma_with_new_member(rest, key, value);
                let tail = with_member(rest, key, value);
                assert forall|x: (Seq<char>, JsonView)| #[trigger]
                    out.contains(x) <==> m.contains(x) || x == (key, value) by {
                    if out.contains(x) {
                        let i = choose|i: int| 0 <= i < out.len() && out[i] == x;
                        if i > 0 {
                            assert(tail[i - 1] == x);
                            assert(tail.contains(x));
                            if rest.contains(x) {
                                let k = choose|k: int| 0 <= k < rest.len() && rest[k] == x;
                                assert(m[k + 1] == x);
                            }
                        } else {
                            assert(m[0] == x);
                        }
                    }
                    if m.contains(x) {
                        let i = choose|i: int| 0 <= i < m.len() && m[i] == x;
                        if i > 0 {
                            assert(rest[i - 1] == x);
                            assert(rest.contains(x));
                            assert(tail.contains(x));
                            let k = choose|k: int| 0 <= k < tail.len() && tail[k] == x;
                            assert(out[k + 1] == x);
                        } else {
                            assert(out[0] == x);
                        }
                    }
                    if x == (key, value) {
                        assert(tail.contains(x));
                        let k = choose|k: int| 0 <= k < tail.len() && tail[k] == x;
                        assert(out[k + 1] == x);
                    }
                }
            },
        }
    }
}

/// The member that a field predicate becomes.
spec fn member_of(f: FilterView) -> (Seq<char>, JsonView) {
    (f->path, pred_json(f->pred))
}

/// The flat object holds one member for each part and no other.
proof fn lemma_flat_members(parts: Seq<FilterView>)
    requires
        flat_members(parts) is Some,
    ensures
        flat_members(parts)->0.len() == parts.len(),
        forall|i: int| 0 <= i < parts.len() ==> (#[trigger] parts[i]) is Field,
        forall|i: int|
            0 <= i < parts.len() ==> flat_members(parts)->0.contains(
                member_of(#[trigger] parts[i]),
            ),
        forall|k: int|
            0 <= k < flat_members(parts)->0.len() ==> exists|i: int|
                0 <= i < parts.len() && #[trigger] member_of(parts[i]) == (#[trigger] flat_members(
                    parts,
                )->0[k]),
    decreases parts.len(),
{
    let m = flat_members(parts)->0;
    if parts.len() > 0 {
        let init = parts.drop_last();
        let before = flat_members(init)->0;
        lemma_flat_members(init);
        let last = parts.last();
        lemma_with_new_member(before, last->path, pred_json(last->pred));
        assert forall|i: int| 0 <= i < parts.len() implies (#[trigger] parts[i]) is Field by {
            if i < init.len() {
                assert(parts[i] == init[i]);
            }
        }
        assert forall|i: int| 0 <= i < parts.len() implies m.contains(
            member_of(#[trigger] parts[i]),
        ) by {
            if i < init.len() {
                assert(parts[i] == init[i]);
                assert(before.contains(member_of(init[i])));
            } else {
                assert(m.contains(member_of(last)));
            }
        }
        assert forall|k: int| 0 <= k < m.len() implies exists|i: int|
            0 <= i < parts.len() && #[trigger] member_of(parts[i]) == (#[trigger] m[k]) by {
            assert(m.contains(m[k]));
            if before.contains(m[k]) {
                let j = choose|j: int| 0 <= j < before.len() && before[j] == m[k];
                let i = choose|i: int|
                    0 <= i < init.len() && #[trigger] member_of(init[i]) == before[j];
                assert(member_of(parts[i]) == m[k]);
            } else {
                assert(member_of(parts[parts.len() - 1]) == m[k]);
            }
        }
    }
}

/// Members that each read as a field filter read as the list of them.
proof fn lemma_fields_read(m: Seq<(Seq<char>, JsonView)>)
    requires
        forall|k: int|
            0 <= k < m.len() ==> !operator_key((#[trigger] m[k]).0) && field_in(
                m[k].0,
                m[k].1,
            ) is Ok,
    ensures
        fields_in(m) is Ok,
        fields_in(m)->Ok_0.len() == m.len(),
        forall|k: int|
            0 <= k < m.len() ==> #[trigger] fields_in(m)->Ok_0[k] == field_in(
                m[k].0,
                m[k].1,
            )->Ok_0,
    decreases m.len(),
{
    if m.len() > 0 {
        let init = m.drop_last();
        assert forall|k: int| 0 <= k < init.len() implies !operator_key((#[trigger] init[k]).0)
            && field_in(init[k].0, init[k].1) is Ok by {
            assert(init[k] == m[k]);
        }
        lemma_fields_read(init);
        assert(!operator_key(m[m.len() - 1].0));
        assert forall|k: int| 0 <= k < m.len() implies #[trigger] fields_in(m)->Ok_0[k]
            == field_in(m[k].0, m[k].1)->Ok_0 by {
            if k < init.len() {
                assert(init[k] == m[k]);
                assert(fields_in(m)->Ok_0[k] == fields_in(init)->Ok_0[k]);
            }
        }
    }
}

/// Filters that each read back with their meaning read back as a list of the
/// same meanings.
proof fn lemma_list_meaning(parts: Seq<FilterView>)
    requires
        forall|i: int| 0 <= i < parts.len() ==> encodable(#[trigger] parts[i]),
    ensures
        filters_in(filter_jsons(parts)) is Ok,
        filters_in(filter_jsons(parts))->Ok_0.len() == parts.len(),
        forall|i: int|
            0 <= i < parts.len() ==> same_meaning(
                #[trigger] parts[i],
                filters_in(filter_jsons(parts))->Ok_0[i],
            ),
    decreases parts,
{
    let items = filter_jsons(parts);
    if parts.len() > 0 {
        let init = parts.drop_last();
        assert(decreases_to!(parts => parts.subrange(0, parts.len() - 1)));
        assert(init == parts.subrange(0, parts.len() - 1));
        assert(decreases_to!(parts => parts[parts.len() - 1]));
        lemma_list_meaning(init);
        law_filter_json_round_trip(parts.last());
        assert(items.drop_last() =~= filter_jsons(init));
        let got = filters_in(items)->Ok_0;
        assert forall|i: int| 0 <= i < parts.len() implies same_meaning(
            #[trigger] parts[i],
            got[i],
        ) by {
            if i < init.len() {
                assert(parts[i] == init[i]);
                assert(got[i] == filters_in(filter_jsons(init))->Ok_0[i]);
            }
        }
    }
}

/// Lists of filters with the same meanings, one for one, conjoin and disjoin
/// to the same meaning.
proof fn lemma_lists_same(parts: Seq<FilterView>, got: Seq<FilterView>)
    requires
        parts.len() == got.len(),
        forall|i: int| 0 <= i < parts.len() ==> same_meaning(#[trigger] parts[i], got[i]),
    ensures
        same_meaning(FilterView::And(parts), conjunction(got)),
        same_meaning(FilterView::Or(parts), disjunction(got)),
{
    let and = FilterView::And(parts);
    let or = FilterView::Or(parts);
    assert forall|doc: JsonView| filter_matches(and, doc) == #[trigger] filter_matches(
        conjunction(got),
        doc,
    ) by {
        assert forall|i: int| 0 <= i < parts.len() implies filter_matches(parts[i], doc)
            == filter_matches(#[trigger] got[i], doc) by {
            assert(same_meaning(parts[i], got[i]));
        }
        if got.len() == 1 {
            assert(filter_matches(and->And_0[0], doc) == filter_matches(got[0], doc));
        } else if got.len() > 1 {
            let other = FilterView::And(got);
            if filter_matches(other, doc) {
                assert forall|i: int| 0 <= i < parts.len() implies filter_matches(
                    #[trigger] parts[i],
                    doc,
                ) by {
                    assert(filter_matches(other->And_0[i], doc));
                }
            }
            if filter_matches(and, doc) {
                assert forall|i: int| 0 <= i < got.len() implies filter_matches(
                    #[trigger] got[i],
                    doc,
                ) by {
                    assert(filter_matches(and->And_0[i], doc));
                }
            }
        }
    }
    assert forall|doc: JsonView| filter_matches(or, doc) == #[trigger] filter_matches(
        disjunction(got),
        doc,
    ) by {
        reveal_with_fuel(filter_matches, 2);
        assert forall|i: int| 0 <= i < parts.len() implies filter_matches(parts[i], doc)
            == filter_matches(#[trigger] got[i], doc) by {
            assert(same_meaning(parts[i], got[i]));
        }
        if got.len() == 1 {
            assert(filter_matches(or->Or_0[0], doc) == filter_matches(got[0], doc));
        } else if got.len() > 1 {
            let other = FilterView::Or(got);
            if filter_matches(other, doc) {
                let i = choose|i: int|
                    0 <= i < got.len() && filter_matches(#[trigger] got[i], doc);
                assert(filter_matches(or->Or_0[i], doc));
            }
            if filter_matches(or, doc) {
                let i = choose|i: int|
                    0 <= i < parts.len() && filter_matches(#[trigger] parts[i], doc);
                assert(filter_matches(other->Or_0[i], doc));
            }
        }
    }
}

/// A filter encoded as JSON parses back to a filter that matches the same
/// documents.
pub proof fn law_filter_json_round_trip(f: FilterView)
    requires
        encodable(f),
    ensures
        filter_in(filter_json(f)) is Ok,
        same_meaning(f, filter_in(filter_json(f))->Ok_0),
    decreases f,
{
    lemma_operators_differ();
    match f {
        FilterView::Always => {},
        FilterView::Field { path, pred } => {
            lemma_single(path, pred_json(pred));
            lemma_field_reads_back(path, pred);
            let m = seq![(path, pred_json(pred))];
            assert(filter_json(f) == JsonView::Object(m));
            assert(lookup(m, "$and"@) is None);
            assert(lookup(m, "$or"@) is None);
            assert(lookup(m, "$not"@) is None);
            lemma_fields_read(m);
            assert(fields_in(m)->Ok_0[0] == f);
        },
        FilterView::And(parts) => {
            if parts.len() == 0 {
                assert forall|doc: JsonView| filter_matches(f, doc) == #[trigger] filter_matches(
                    FilterView::Always,
                    doc,
                ) by {}
            } else if parts.len() == 1 {
                law_filter_json_round_trip(parts[0]);
                let g = filter_in(filter_json(f))->Ok_0;
                assert forall|doc: JsonView| filter_matches(f, doc) == #[trigger] filter_matches(
                    g,
                    doc,
                ) by {
                    assert(filter_matches(f->And_0[0], doc) == filter_matches(g, doc));
                }
            } else if flat_members(parts) is Some {
                lemma_flat_meaning(parts);
            } else {
                lemma_list_meaning(parts);
                lemma_single("$and"@, JsonView::Array(filter_jsons(parts)));
                lemma_lists_same(parts, filters_in(filter_jsons(parts))->Ok_0);
            }
        },
        FilterView::Or(parts) => {
            if parts.len() == 0 {
                lemma_single("$not"@, JsonView::Object(Seq::empty()));
                reveal_with_fuel(filter_in, 3);
                lemma_lists_same(parts, parts);
                assert(disjunction(parts) == filter_in(filter_json(f))->Ok_0);
            } else if parts.len() == 1 {
                law_filter_json_round_trip(parts[0]);
                let g = filter_in(filter_json(f))->Ok_0;
                assert forall|doc: JsonView| filter_matches(f, doc) == #[trigger] filter_matches(
                    g,
                    doc,
                ) by {
                    assert(filter_matches(f->Or_0[0], doc) == filter_matches(g, doc));
                }
            } else {
                lemma_list_meaning(parts);
                lemma_single("$or"@, JsonView::Array(filter_jsons(parts)));
                lemma_lists_same(parts, filters_in(filter_jsons(parts))->Ok_0);
            }
        },
        FilterView::Not(inner) => {
            law_filter_json_round_trip(*inner);
            lemma_single("$not"@, filter_json(*inner));
            let g = filter_in(filter_json(*inner))->Ok_0;
            assert forall|doc: JsonView| filter_matches(f, doc) == #[trigger] filter_matches(
                FilterView::Not(Box::new(g)),
                doc,
            ) by {
                assert(filter_matches(*inner, doc) == filter_matches(g, doc));
            }
        },
    }
}

/// The flat object of a conjunction reads back with its meaning.
proof fn lemma_flat_meaning(parts: Seq<FilterView>)
    requires
        parts.len() > 1,
        forall|i: int| 0 <= i < parts.len() ==> encodable(#[trigger] parts[i]),
        flat_members(parts) is Some,
    ensures
        filter_in(JsonView::Object(flat_members(parts)->0)) is Ok,
        same_meaning(
            FilterView::And(parts),
            filter_in(JsonView::Object(flat_members(parts)->0))->Ok_0,
        ),
{
    let m = flat_members(parts)->0;
    lemma_flat_members(parts);
    assert forall|k: int| 0 <= k < m.len() implies !operator_key((#[trigger] m[k]).0)
        && field_in(m[k].0, m[k].1) is Ok by {
        let i = choose|i: int| 0 <= i < parts.len() && #[trigger] member_of(parts[i]) == m[k];
        assert(encodable(parts[i]));
        lemma_field_reads_back(parts[i]->path, parts[i]->pred);
    }
    lemma_fields_read(m);
    let got = fields_in(m)->Ok_0;
    let and = FilterView::And(parts);
    let other = FilterView::And(got);
    assert forall|doc: JsonView| filter_matches(and, doc) == #[trigger] filter_matches(
        other,
        doc,
    ) by {
        if filter_matches(and, doc) {
            assert forall|k: int| 0 <= k < got.len() implies filter_matches(
                #[trigger] got[k],
                doc,
            ) by {
                let i = choose|i: int|
                    0 <= i < parts.len() && #[trigger] member_of(parts[i]) == m[k];
                assert(encodable(parts[i]));
                lemma_field_reads_back(parts[i]->path, parts[i]->pred);
                assert(filter_matches(and->And_0[i], doc));
            }
        }
        if filter_matches(other, doc) {
            assert forall|i: int| 0 <= i < parts.len() implies filter_matches(
                #[trigger] parts[i],
                doc,
            ) by {
                assert(encodable(parts[i]));
                lemma_field_reads_back(parts[i]->path, parts[i]->pred);
                assert(m.contains(member_of(parts[i])));
                let k = choose|k: int| 0 <= k < m.len() && m[k] == member_of(parts[i]);
                assert(got[k] == parts[i]);
                assert(filter_matches(other->And_0[k], doc));
            }
        }
    }
}

/// A comparison of a path with a literal.
pub open spec fn path_against(cmp: CompareOp, path: Seq<Seq<char>>, v: JsonView) -> PredicateView {
    PredicateView::Cmp {
        cmp,
        left: OperandView::Path { path },
        right: OperandView::Literal { value: v },
    }
}

/// The total predicate of a field predicate on a path.
pub open spec fn field_lowered(path: Seq<Seq<char>>, pred: PredView) -> PredicateView {
    match pred {
        PredView::Eq(v) => if v is Null {
            PredicateView::IsNull { path, negated: false }
        } else {
            path_against(CompareOp::Eq, path, v)
        },
        PredView::Ne(v) => PredicateView::Or {
            args: seq![
                PredicateView::Missing { path },
                path_against(CompareOp::Ne, path, v),
            ],
        },
        PredView::Lt(v) => path_against(CompareOp::Lt, path, v),
        PredView::Lte(v) => path_against(CompareOp::Lte, path, v),
        PredView::Gt(v) => path_against(CompareOp::Gt, path, v),
        PredView::Gte(v) => path_against(CompareOp::Gte, path, v),
        PredView::In(list) => PredicateView::In {
            left: OperandView::Path { path },
            list,
            negated: false,
        },
        PredView::Exists(want) => if want {
            PredicateView::Present { path }
        } else {
            PredicateView::Missing { path }
        },
        PredView::Prefix(prefix) => PredicateView::StartsWith { path, prefix },
        PredView::Contains(needle) => PredicateView::Contains { path, needle },
    }
}

/// The total predicate of a filter, or why there is none: a path that is empty,
/// has an empty segment, or is too long.
pub open spec fn filter_lowered(f: FilterView) -> Result<PredicateView, ErrorView>
    decreases f,
{
    match f {
        FilterView::Always => Ok(PredicateView::True),
        FilterView::Field { path, pred } => match path_of_dotted(path) {
            Err(e) => Err(e),
            Ok(segs) => Ok(field_lowered(segs, pred)),
        },
        FilterView::And(parts) => match filters_lowered(parts) {
            Err(e) => Err(e),
            Ok(args) => if args.len() == 0 {
                Ok(PredicateView::True)
            } else if args.len() == 1 {
                Ok(args[0])
            } else {
                Ok(PredicateView::And { args })
            },
        },
        FilterView::Or(parts) => match filters_lowered(parts) {
            Err(e) => Err(e),
            Ok(args) => if args.len() == 0 {
                Ok(PredicateView::False)
            } else if args.len() == 1 {
                Ok(args[0])
            } else {
                Ok(PredicateView::Or { args })
            },
        },
        FilterView::Not(inner) => match filter_lowered(*inner) {
            Err(e) => Err(e),
            Ok(arg) => Ok(PredicateView::Not { arg: Box::new(arg) }),
        },
    }
}

/// The total predicates of a list of filters; the first refusal counts.
pub open spec fn filters_lowered(parts: Seq<FilterView>) -> Result<Seq<PredicateView>, ErrorView>
    decreases parts,
{
    if parts.len() == 0 {
        Ok(Seq::empty())
    } else {
        proof {
            assert(decreases_to!(parts => parts.subrange(0, parts.len() - 1)));
            assert(parts.drop_last() == parts.subrange(0, parts.len() - 1));
            assert(decreases_to!(parts => parts[parts.len() - 1]));
        }
        match filters_lowered(parts.drop_last()) {
            Err(e) => Err(e),
            Ok(done) => match filter_lowered(parts.last()) {
                Err(e) => Err(e),
                Ok(p) => Ok(done.push(p)),
            },
        }
    }
}

proof fn lemma_lowering_refused(parts: Seq<FilterView>, n: int)
    requires
        0 <= n <= parts.len(),
        filters_lowered(parts.take(n)) is Err,
    ensures
        filters_lowered(parts) == filters_lowered(parts.take(n)),
    decreases parts.len() - n,
{
    if n == parts.len() {
        assert(parts.take(n) =~= parts);
    } else {
        assert(parts.take(n + 1).drop_last() =~= parts.take(n));
        lemma_lowering_refused(parts, n + 1);
    }
}

/// Every field path of a filter is a dotted path.
pub open spec fn paths_parse(f: FilterView) -> bool
    decreases f,
{
    match f {
        FilterView::Always => true,
        FilterView::Field { path, .. } => path_of_dotted(path) is Ok,
        FilterView::And(parts) => forall|i: int|
            0 <= i < parts.len() ==> paths_parse(#[trigger] parts[i]),
        FilterView::Or(parts) => forall|i: int|
            0 <= i < parts.len() ==> paths_parse(#[trigger] parts[i]),
        FilterView::Not(inner) => paths_parse(*inner),
    }
}

/// A filter has a total predicate exactly where every field path of it is a
/// dotted path.
pub proof fn law_lowering_succeeds(f: FilterView)
    ensures
        filter_lowered(f) is Ok <==> paths_parse(f),
    decreases f,
{
    match f {
        FilterView::And(parts) => lemma_lowering_succeeds(parts),
        FilterView::Or(parts) => lemma_lowering_succeeds(parts),
        FilterView::Not(inner) => law_lowering_succeeds(*inner),
        _ => {},
    }
}

proof fn lemma_lowering_succeeds(parts: Seq<FilterView>)
    ensures
        filters_lowered(parts) is Ok <==> forall|i: int|
            0 <= i < parts.len() ==> paths_parse(#[trigger] parts[i]),
    decreases parts,
{
    if parts.len() > 0 {
        let head = parts.drop_last();
        assert(decreases_to!(parts => parts.subrange(0, parts.len() - 1)));
        assert(head == parts.subrange(0, parts.len() - 1));
        assert(decreases_to!(parts => parts[parts.len() - 1]));
        lemma_lowering_succeeds(head);
        law_lowering_succeeds(parts[parts.len() - 1]);
        assert(forall|i: int| 0 <= i < head.len() ==> head[i] == #[trigger] parts[i]);
        if filters_lowered(parts) is Ok {
            assert forall|i: int| 0 <= i < parts.len() implies paths_parse(#[trigger] parts[i]) by {
                if i < head.len() {
                    assert(paths_parse(head[i]));
                }
            }
        }
    }
}

fn against(cmp: CompareOp, path: Path, v: &Json) -> (r: Predicate)
    ensures
        r@ == path_against(cmp, path@, v@),
{
    Predicate::Cmp { cmp, left: Operand::path(path), right: Operand::literal(v.clone()) }
}

fn lower_field(path: Path, pred: &Pred) -> (r: Predicate)
    ensures
        r@ == field_lowered(path@, pred@),
{
    match pred {
        Pred::Eq(v) => if v.is_null() {
            Predicate::IsNull { path, negated: false }
        } else {
            against(CompareOp::Eq, path, v)
        },
        Pred::Ne(v) => {
            let mut args: Vec<Predicate> = Vec::new();
            args.push(Predicate::Missing { path: path.clone() });
            args.push(against(CompareOp::Ne, path, v));
            proof {
                crate::predicate::lemma_or_model(args);
                assert(predicate_models(args@) =~= field_lowered(path@, pred@)->Or_args);
            }
            Predicate::Or { args }
        },
        Pred::Lt(v) => against(CompareOp::Lt, path, v),
        Pred::Lte(v) => against(CompareOp::Lte, path, v),
        Pred::Gt(v) => against(CompareOp::Gt, path, v),
        Pred::Gte(v) => against(CompareOp::Gte, path, v),
        Pred::In(list) => Predicate::In {
            left: Operand::path(path),
            list: clone_values(list),
            negated: false,
        },
        Pred::Exists(want) => if *want {
            Predicate::Present { path }
        } else {
            Predicate::Missing { path }
        },
        Pred::Prefix(s) => Predicate::StartsWith { path, prefix: s.clone() },
        Pred::Contains(v) => Predicate::Contains { path, needle: v.clone() },
    }
}

fn lower_list(parts: &Vec<Filter>) -> (r: Result<Vec<Predicate>, Error>)
    ensures
        match r {
            Ok(v) => filters_lowered(filter_models(parts@)) == Ok::<Seq<PredicateView>, ErrorView>(
                predicate_models(v@),
            ),
            Err(e) => filters_lowered(filter_models(parts@)) == Err::<
                Seq<PredicateView>,
                ErrorView,
            >(e@),
        },
    decreases parts,
{
    let mut out: Vec<Predicate> = Vec::new();
    let mut i: usize = 0;
    let ghost all = filter_models(parts@);
    proof {
        assert(all.take(0) =~= Seq::<FilterView>::empty());
        assert(predicate_models(out@) =~= Seq::<PredicateView>::empty());
    }
    while i < parts.len()
        invariant
            all == filter_models(parts@),
            i <= parts@.len(),
            filters_lowered(all.take(i as int)) == Ok::<Seq<PredicateView>, ErrorView>(
                predicate_models(out@),
            ),
        decreases parts@.len() - i,
    {
        proof {
            assert(all.take(i + 1).drop_last() =~= all.take(i as int));
            assert(all.take(i + 1).last() == parts@[i as int]@);
            assert(decreases_to!(*parts => parts@));
            assert(decreases_to!(parts@ => parts@[i as int]));
        }
        match parts[i].to_predicate() {
            Ok(p) => {
                let ghost before = predicate_models(out@);
                out.push(p);
                proof {
                    assert(predicate_models(out@) =~= before.push(p@));
                }
            },
            Err(e) => {
                proof {
                    lemma_lowering_refused(all, i + 1);
                }
                return Err(e);
            },
        }
        i = i + 1;
    }
    proof {
        assert(all.take(all.len() as int) =~= all);
    }
    Ok(out)
}

impl Filter {
    /// Lowers this filter into a total predicate with the filter's own
    /// semantics: in particular a missing field stays unequal to every value.
    pub fn to_predicate(&self) -> (r: Result<Predicate, Error>)
        ensures
            outcome(r) == filter_lowered(self@),
        decreases self,
    {
        match self {
            Filter::Always => Ok(Predicate::True),
            Filter::Field { path, pred } => {
                let segs = Path::parse_dotted(path.as_str())?;
                Ok(lower_field(segs, pred))
            },
            Filter::And(parts) => {
                proof {
                    assert(decreases_to!(*self => self->And_0));
                    lemma_and_filter_model(*parts);
                }
                let mut args = lower_list(parts)?;
                if args.len() == 0 {
                    Ok(Predicate::True)
                } else if args.len() == 1 {
                    Ok(args.swap_remove(0))
                } else {
                    proof {
                        crate::predicate::lemma_and_model(args);
                    }
                    Ok(Predicate::And { args })
                }
            },
            Filter::Or(parts) => {
                proof {
                    assert(decreases_to!(*self => self->Or_0));
                    lemma_or_filter_model(*parts);
                }
                let mut args = lower_list(parts)?;
                if args.len() == 0 {
                    Ok(Predicate::False)
                } else if args.len() == 1 {
                    Ok(args.swap_remove(0))
                } else {
                    proof {
                        crate::predicate::lemma_or_model(args);
                    }
                    Ok(Predicate::Or { args })
                }
            },
            Filter::Not(inner) => {
                let arg = inner.to_predicate()?;
                Ok(Predicate::Not { arg: Box::new(arg) })
            },
        }
    }
}

/// A list membership holds whichever side the elements are compared from.
proof fn lemma_listed(v: JsonView, list: Seq<JsonView>)
    ensures
        listed(v, list) == holds_element(list, v),
{
    if listed(v, list) {
        let i = choose|i: int| 0 <= i < list.len() && json_same(v, #[trigger] list[i]);
        crate::json::law_json_same_symmetric(v, list[i]);
        assert(json_same(list[i], v));
    }
    if holds_element(list, v) {
        let i = choose|i: int| 0 <= i < list.len() && json_same(#[trigger] list[i], v);
        crate::json::law_json_same_symmetric(list[i], v);
        assert(json_same(v, list[i]));
    }
}

/// One field predicate keeps its meaning when lowered.
proof fn lemma_field_lowered(
    path: Seq<char>,
    pred: PredView,
    doc: JsonView,
    params: Seq<(Seq<char>, JsonView)>,
)
    requires
        path_of_dotted(path) is Ok,
    ensures
        crate::predicate::evaluates(
            field_lowered(path_of_dotted(path)->Ok_0, pred),
            doc,
            params,
        ) == Ok::<bool, ErrorView>(field_holds(field_value(doc, path), pred)),
{
    let segs = path_of_dotted(path)->Ok_0;
    assert(field_segments(path) == segs);
    let value = resolve(doc, segs);
    match pred {
        PredView::Ne(v) => {
            let args = field_lowered(segs, pred)->Or_args;
            let rest = args.drop_first();
            assert(rest[0] == args[1]);
            assert(rest.drop_first().len() == 0);
            assert(crate::predicate::evaluates(args[0], doc, params) == Ok::<bool, ErrorView>(
                value is None,
            ));
            assert(crate::predicate::evaluates(args[1], doc, params) == Ok::<bool, ErrorView>(
                crate::predicate::compares(CompareOp::Ne, value, Some(v)),
            ));
            assert(crate::predicate::any_evaluates(rest.drop_first(), doc, params) == Ok::<
                bool,
                ErrorView,
            >(false));
            assert(crate::predicate::any_evaluates(rest, doc, params)
                == crate::predicate::evaluates(args[1], doc, params));
            assert(crate::predicate::any_evaluates(args, doc, params) == Ok::<bool, ErrorView>(
                field_holds(value, pred),
            ));
        },
        PredView::In(list) => {
            if value is Some {
                lemma_listed(value->0, list);
            }
        },
        _ => {},
    }
}

/// Lowering keeps the meaning: on every document the total predicate of a
/// filter gives what the filter gives.
pub proof fn law_lowering_keeps_meaning(
    f: FilterView,
    doc: JsonView,
    params: Seq<(Seq<char>, JsonView)>,
)
    requires
        filter_lowered(f) is Ok,
    ensures
        crate::predicate::evaluates(filter_lowered(f)->Ok_0, doc, params) == Ok::<bool, ErrorView>(
            filter_matches(f, doc),
        ),
    decreases f,
{
    match f {
        FilterView::Always => {},
        FilterView::Field { path, pred } => {
            lemma_field_lowered(path, pred, doc, params);
        },
        FilterView::And(parts) => {
            lemma_lowered_list(parts, doc, params);
            let args = filters_lowered(parts)->Ok_0;
            lemma_all_evaluate(args, parts, doc, params);
            if args.len() == 1 {
                assert(filter_matches(f->And_0[0], doc) == filter_matches(f, doc));
            }
        },
        FilterView::Or(parts) => {
            lemma_lowered_list(parts, doc, params);
            let args = filters_lowered(parts)->Ok_0;
            lemma_any_evaluates(args, parts, doc, params);
            if args.len() == 1 {
                assert(filter_matches(f->Or_0[0], doc) == filter_matches(f, doc));
            }
        },
        FilterView::Not(inner) => {
            law_lowering_keeps_meaning(*inner, doc, params);
        },
    }
}

proof fn lemma_lowered_list(
    parts: Seq<FilterView>,
    doc: JsonView,
    params: Seq<(Seq<char>, JsonView)>,
)
    requires
        filters_lowered(parts) is Ok,
    ensures
        filters_lowered(parts)->Ok_0.len() == parts.len(),
        forall|i: int|
            0 <= i < parts.len() ==> crate::predicate::evaluates(
                #[trigger] filters_lowered(parts)->Ok_0[i],
                doc,
                params,
            ) == Ok::<bool, ErrorView>(filter_matches(parts[i], doc)),
    decreases parts,
{
    if parts.len() > 0 {
        let init = parts.drop_last();
        assert(decreases_to!(parts => parts.subrange(0, parts.len() - 1)));
        assert(init == parts.subrange(0, parts.len() - 1));
        assert(decreases_to!(parts => parts[parts.len() - 1]));
        lemma_lowered_list(init, doc, params);
        law_lowering_keeps_meaning(parts.last(), doc, params);
        let args = filters_lowered(parts)->Ok_0;
        assert forall|i: int| 0 <= i < parts.len() implies crate::predicate::evaluates(
            #[trigger] args[i],
            doc,
            params,
        ) == Ok::<bool, ErrorView>(filter_matches(parts[i], doc)) by {
            if i < init.len() {
                assert(args[i] == filters_lowered(init)->Ok_0[i]);
                assert(init[i] == parts[i]);
            }
        }
    }
}

proof fn lemma_all_evaluate(
    args: Seq<PredicateView>,
    parts: Seq<FilterView>,
    doc: JsonView,
    params: Seq<(Seq<char>, JsonView)>,
)
    requires
        args.len() == parts.len(),
        forall|i: int|
            0 <= i < parts.len() ==> crate::predicate::evaluates(#[trigger] args[i], doc, params)
                == Ok::<bool, ErrorView>(filter_matches(parts[i], doc)),
    ensures
        crate::predicate::all_evaluate(args, doc, params) == Ok::<bool, ErrorView>(
            filter_matches(FilterView::And(parts), doc),
        ),
    decreases args.len(),
{
    let and = FilterView::And(parts);
    if args.len() > 0 {
        let rest = FilterView::And(parts.drop_first());
        assert forall|i: int| 0 <= i < parts.drop_first().len() implies crate::predicate::evaluates(
            #[trigger] args.drop_first()[i],
            doc,
            params,
        ) == Ok::<bool, ErrorView>(filter_matches(parts.drop_first()[i], doc)) by {
            assert(args.drop_first()[i] == args[i + 1]);
        }
        lemma_all_evaluate(args.drop_first(), parts.drop_first(), doc, params);
        assert(crate::predicate::evaluates(args[0], doc, params) == Ok::<bool, ErrorView>(
            filter_matches(parts[0], doc),
        ));
        if filter_matches(and, doc) {
            assert(filter_matches(and->And_0[0], doc));
            assert forall|i: int| 0 <= i < parts.drop_first().len() implies filter_matches(
                #[trigger] parts.drop_first()[i],
                doc,
            ) by {
                assert(filter_matches(and->And_0[i + 1], doc));
            }
            assert(filter_matches(rest, doc));
        }
        if filter_matches(parts[0], doc) && filter_matches(rest, doc) {
            assert forall|i: int| 0 <= i < parts.len() implies filter_matches(
                #[trigger] parts[i],
                doc,
            ) by {
                if i > 0 {
                    assert(filter_matches(rest->And_0[i - 1], doc));
                }
            }
            assert(filter_matches(and, doc));
        }
    }
}

proof fn lemma_any_evaluates(
    args: Seq<PredicateView>,
    parts: Seq<FilterView>,
    doc: JsonView,
    params: Seq<(Seq<char>, JsonView)>,
)
    requires
        args.len() == parts.len(),
        forall|i: int|
            0 <= i < parts.len() ==> crate::predicate::evaluates(#[trigger] args[i], doc, params)
                == Ok::<bool, ErrorView>(filter_matches(parts[i], doc)),
    ensures
        crate::predicate::any_evaluates(args, doc, params) == Ok::<bool, ErrorView>(
            filter_matches(FilterView::Or(parts), doc),
        ),
    decreases args.len(),
{
    let or = FilterView::Or(parts);
    if args.len() > 0 {
        let rest = FilterView::Or(parts.drop_first());
        assert forall|i: int| 0 <= i < parts.drop_first().len() implies crate::predicate::evaluates(
            #[trigger] args.drop_first()[i],
            doc,
            params,
        ) == Ok::<bool, ErrorView>(filter_matches(parts.drop_first()[i], doc)) by {
            assert(args.drop_first()[i] == args[i + 1]);
        }
        lemma_any_evaluates(args.drop_first(), parts.drop_first(), doc, params);
        assert(crate::predicate::evaluates(args[0], doc, params) == Ok::<bool, ErrorView>(
            filter_matches(parts[0], doc),
        ));
        if filter_matches(or, doc) {
            let i = choose|i: int| 0 <= i < parts.len() && filter_matches(#[trigger] parts[i], doc);
            if i > 0 {
                assert(filter_matches(rest->Or_0[i - 1], doc));
                assert(filter_matches(rest, doc));
            }
        }
        if filter_matches(parts[0], doc) {
            assert(filter_matches(or->Or_0[0], doc));
            assert(filter_matches(or, doc));
        } else if filter_matches(rest, doc) {
            let i = choose|i: int|
                0 <= i < parts.drop_first().len() && filter_matches(
                    #[trigger] parts.drop_first()[i],
                    doc,
                );
            assert(filter_matches(or->Or_0[i + 1], doc));
            assert(filter_matches(or, doc));
        }
    }
}

/// Order of two values in a sort: `false` stands before `true`, and values that
/// do not compare otherwise are ordered by their JSON text.
pub open spec fn sort_order(a: JsonView, b: JsonView) -> Order {
    match (a, b) {
        (JsonView::Bool(x), JsonView::Bool(y)) => if x == y {
            Order::Equal
        } else if y {
            Order::Less
        } else {
            Order::Greater
        },
        _ => match value_order(a, b) {
            Some(o) => o,
            None => text_order(json_text(a), json_text(b)),
        },
    }
}

/// Compares two values for a sort.
fn compare_for_sort(a: &Json, b: &Json) -> (r: Order)
    ensures
        r == sort_order(a@, b@),
{
    match (a, b) {
        (Json::Bool(x), Json::Bool(y)) => {
            if *x == *y {
                Order::Equal
            } else if *y {
                Order::Less
            } else {
                Order::Greater
            }
        },
        _ => match compare_values(a, b) {
            Some(o) => o,
            None => compare_text(write_json(a).as_str(), write_json(b).as_str()),
        },
    }
}

/// Order of two documents by a field: a missing field sorts first, and a
/// descending order is the ascending one turned round.
pub open spec fn field_order(a: JsonView, b: JsonView, path: Seq<char>, order: SortOrder) -> Order {
    let base = match (field_value(a, path), field_value(b, path)) {
        (None, None) => Order::Equal,
        (None, Some(_)) => Order::Less,
        (Some(_), None) => Order::Greater,
        (Some(x), Some(y)) => sort_order(x, y),
    };
    match order {
        SortOrder::Asc => base,
        SortOrder::Desc => base.flip(),
    }
}

/// Compares two documents for an order-by.
pub fn compare_field(a: &Json, b: &Json, path: &str, order: SortOrder) -> (r: Order)
    ensures
        r == field_order(a@, b@, path@, order),
{
    let base = match (resolve_path_value(a, path), resolve_path_value(b, path)) {
        (None, None) => Order::Equal,
        (None, Some(_)) => Order::Less,
        (Some(_), None) => Order::Greater,
        (Some(x), Some(y)) => compare_for_sort(x, y),
    };
    match order {
        SortOrder::Asc => base,
        SortOrder::Desc => base.reverse(),
    }
}

} // verus!
