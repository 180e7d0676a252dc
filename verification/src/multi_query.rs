//! Joins over several collections.
//!
//! A query names a first collection and joins others to it on equal field
//! values. The caller checks collection names and runs the find of each
//! source; the rows are joined here. A joined row is an object with one member
//! per source, named by the source's alias.
use crate::collection::row_models;
use crate::error::{Error, ErrorView};
use crate::filter::{
    conjunction, field_value, filter_models, no_options, resolve_path_value, Filter, FilterView,
    PredView, QueryBudget, QueryOptions, QueryOptionsView,
};
use crate::json::{
    group_json_model, lookup, models, text_value, with_member, Json, JsonMap, JsonNumber, JsonView,
    NumberView,
};
use crate::json_text::{json_text, write_json};
use crate::sda_text::filter_text;
use crate::text::{cat2, cat3, cat4, debug_quoted, debug_text, same_text};
use vstd::prelude::*;

verus! {

/// Profile of a described query.
pub const MULTI_QUERY_PROFILE: &'static str = "residiuum-multi-query-v1";

/// One source of a query.
#[derive(Debug)]
pub struct SourceSpec {
    /// Collection.
    pub collection: String,
    /// Name of its member in a joined row.
    pub alias: String,
    /// Which documents take part.
    pub filter: Filter,
    /// Options of the find.
    pub options: QueryOptions,
}

/// Model of a [`SourceSpec`].
#[verifier::ext_equal]
pub struct SourceView {
    pub collection: Seq<char>,
    pub alias: Seq<char>,
    pub filter: FilterView,
    pub options: QueryOptionsView,
}

impl View for SourceSpec {
    type V = SourceView;

    open spec fn view(&self) -> SourceView {
        SourceView {
            collection: self.collection@,
            alias: self.alias@,
            filter: self.filter@,
            options: self.options@,
        }
    }
}

/// On what a source is joined to the rows so far.
#[derive(Debug)]
pub struct JoinSpec {
    /// Alias of the left side.
    pub left_alias: String,
    /// Field of the left side.
    pub left_field: String,
    /// Field of the right side.
    pub right_field: String,
}

/// Model of a [`JoinSpec`].
#[verifier::ext_equal]
pub struct JoinView {
    pub left_alias: Seq<char>,
    pub left_field: Seq<char>,
    pub right_field: Seq<char>,
}

impl View for JoinSpec {
    type V = JoinView;

    open spec fn view(&self) -> JoinView {
        JoinView {
            left_alias: self.left_alias@,
            left_field: self.left_field@,
            right_field: self.right_field@,
        }
    }
}

/// The models of sources.
pub open spec fn source_views(v: Seq<SourceSpec>) -> Seq<SourceView> {
    v.map_values(|s: SourceSpec| s@)
}

/// The models of joins.
pub open spec fn join_views(v: Seq<JoinSpec>) -> Seq<JoinView> {
    v.map_values(|j: JoinSpec| j@)
}

/// A query over several collections.
#[derive(Debug)]
pub struct MultiQuery {
    /// Sources, the first one first.
    pub sources: Vec<SourceSpec>,
    /// How each further source is joined.
    pub joins: Vec<JoinSpec>,
    /// Most joined rows.
    pub limit: Option<usize>,
    /// Whether each document carries its key as `_key`.
    pub include_keys: bool,
}

/// Model of a [`MultiQuery`].
#[verifier::ext_equal]
pub struct MultiQueryView {
    pub sources: Seq<SourceView>,
    pub joins: Seq<JoinView>,
    pub limit: Option<usize>,
    pub include_keys: bool,
}

impl View for MultiQuery {
    type V = MultiQueryView;

    open spec fn view(&self) -> MultiQueryView {
        MultiQueryView {
            sources: source_views(self.sources@),
            joins: join_views(self.joins@),
            limit: self.limit,
            include_keys: self.include_keys,
        }
    }
}

/// A join whose fields are still to be named.
#[derive(Debug)]
pub struct JoinBuilder {
    /// The query so far.
    pub query: MultiQuery,
    /// The source to join.
    pub right: SourceSpec,
}

/// Model of a [`JoinBuilder`].
#[verifier::ext_equal]
pub struct JoinBuilderView {
    pub query: MultiQueryView,
    pub right: SourceView,
}

impl View for JoinBuilder {
    type V = JoinBuilderView;

    open spec fn view(&self) -> JoinBuilderView {
        JoinBuilderView { query: self.query@, right: self.right@ }
    }
}

/// A source that takes every document.
pub open spec fn whole(collection: Seq<char>, alias: Seq<char>) -> SourceView {
    SourceView { collection, alias, filter: FilterView::Always, options: no_options() }
}

/// A query with another last source.
pub open spec fn with_last(q: MultiQueryView, last: SourceView) -> MultiQueryView {
    MultiQueryView { sources: q.sources.drop_last().push(last), ..q }
}

/// A query whose last source is narrowed by one more filter.
pub open spec fn narrowed(q: MultiQueryView, f: FilterView) -> MultiQueryView {
    if q.sources.len() == 0 {
        q
    } else {
        with_last(
            q,
            SourceView { filter: conjunction(seq![q.sources.last().filter, f]), ..q.sources.last() },
        )
    }
}

/// A join whose right side is narrowed by one more filter.
pub open spec fn right_narrowed(b: JoinBuilderView, f: FilterView) -> JoinBuilderView {
    JoinBuilderView {
        right: SourceView { filter: conjunction(seq![b.right.filter, f]), ..b.right },
        ..b
    }
}

fn and_both(a: Filter, b: Filter) -> (r: Filter)
    ensures
        r@ == conjunction(seq![a@, b@]),
{
    let mut parts: Vec<Filter> = Vec::new();
    parts.push(a);
    parts.push(b);
    proof {
        assert(filter_models(parts@) =~= seq![a@, b@]);
    }
    Filter::and(parts)
}

impl MultiQuery {
    /// A query without sources.
    pub fn new() -> (r: MultiQuery)
        ensures
            r@ == (MultiQueryView {
                sources: Seq::empty(),
                joins: Seq::empty(),
                limit: None,
                include_keys: false,
            }),
    {
        let r = MultiQuery {
            sources: Vec::new(),
            joins: Vec::new(),
            limit: None,
            include_keys: false,
        };
        proof {
            assert(r@.sources =~= Seq::empty());
            assert(r@.joins =~= Seq::empty());
        }
        r
    }

    /// Starts from a collection, under its own name.
    pub fn from(self, collection: &str) -> (r: MultiQuery)
        ensures
            r@ == (MultiQueryView {
                sources: self@.sources.push(whole(collection@, collection@)),
                ..self@
            }),
    {
        self.from_as(collection, collection)
    }

    /// Starts from a collection, under an alias.
    pub fn from_as(self, collection: &str, alias: &str) -> (r: MultiQuery)
        ensures
            r@ == (MultiQueryView {
                sources: self@.sources.push(whole(collection@, alias@)),
                ..self@
            }),
    {
        let mut q = self;
        let ghost before = q@;
        q.sources.push(
            SourceSpec {
                collection: collection.to_string(),
                alias: alias.to_string(),
                filter: Filter::always(),
                options: QueryOptions::default(),
            },
        );
        proof {
            assert(q@.sources =~= before.sources.push(whole(collection@, alias@)));
        }
        q
    }

    /// Sets the filter of the source added last.
    pub fn filter(self, f: Filter) -> (r: MultiQuery)
        ensures
            r@ == (if self@.sources.len() == 0 {
                self@
            } else {
                with_last(self@, SourceView { filter: f@, ..self@.sources.last() })
            }),
    {
        let mut q = self;
        let ghost before = q@;
        match q.sources.pop() {
            Some(src) => {
                q.sources.push(
                    SourceSpec {
                        collection: src.collection,
                        alias: src.alias,
                        filter: f,
                        options: src.options,
                    },
                );
                proof {
                    assert(q@.sources =~= with_last(
                        before,
                        SourceView { filter: f@, ..before.sources.last() },
                    ).sources);
                }
            },
            None => {},
        }
        q
    }

    /// Narrows the source added last by one more filter.
    pub fn and_filter(self, f: Filter) -> (r: MultiQuery)
        ensures
            r@ == narrowed(self@, f@),
    {
        let mut q = self;
        let ghost before = q@;
        match q.sources.pop() {
            Some(src) => {
                let filter = and_both(src.filter, f);
                q.sources.push(
                    SourceSpec {
                        collection: src.collection,
                        alias: src.alias,
                        filter,
                        options: src.options,
                    },
                );
                proof {
                    assert(q@.sources =~= narrowed(before, f@).sources);
                }
            },
            None => {},
        }
        q
    }

    /// `field == value` on the source added last.
    pub fn where_eq(self, field: &str, value: Json) -> (r: MultiQuery)
        ensures
            r@ == narrowed(self@, FilterView::Field { path: field@, pred: PredView::Eq(value@) }),
    {
        self.and_filter(Filter::field(field).eq(value))
    }

    /// `field != value` on the source added last.
    pub fn where_ne(self, field: &str, value: Json) -> (r: MultiQuery)
        ensures
            r@ == narrowed(self@, FilterView::Field { path: field@, pred: PredView::Ne(value@) }),
    {
        self.and_filter(Filter::field(field).ne(value))
    }

    /// `field < value` on the source added last.
    pub fn where_lt(self, field: &str, value: Json) -> (r: MultiQuery)
        ensures
            r@ == narrowed(self@, FilterView::Field { path: field@, pred: PredView::Lt(value@) }),
    {
        self.and_filter(Filter::field(field).lt(value))
    }

    /// `field <= value` on the source added last.
    pub fn where_lte(self, field: &str, value: Json) -> (r: MultiQuery)
        ensures
            r@ == narrowed(self@, FilterView::Field { path: field@, pred: PredView::Lte(value@) }),
    {
        self.and_filter(Filter::field(field).lte(value))
    }

    /// `field > value` on the source added last.
    pub fn where_gt(self, field: &str, value: Json) -> (r: MultiQuery)
        ensures
            r@ == narrowed(self@, FilterView::Field { path: field@, pred: PredView::Gt(value@) }),
    {
        self.and_filter(Filter::field(field).gt(value))
    }

    /// `field >= value` on the source added last.
    pub fn where_gte(self, field: &str, value: Json) -> (r: MultiQuery)
        ensures
            r@ == narrowed(self@, FilterView::Field { path: field@, pred: PredView::Gte(value@) }),
    {
        self.and_filter(Filter::field(field).gte(value))
    }

    /// `field` is one of `values` on the source added last.
    pub fn where_in(self, field: &str, values: Vec<Json>) -> (r: MultiQuery)
        ensures
            r@ == narrowed(self@, FilterView::Field { path: field@, pred: PredView::In(models(values@)) }),
    {
        self.and_filter(Filter::field(field).is_in(values))
    }

    /// Bounds what the find of the source added last examines.
    pub fn source_budget(self, budget: QueryBudget) -> (r: MultiQuery)
        ensures
            r@ == (if self@.sources.len() == 0 {
                self@
            } else {
                with_last(
                    self@,
                    SourceView {
                        options: QueryOptionsView {
                            budget: Some(budget),
                            ..self@.sources.last().options
                        },
                        ..self@.sources.last()
                    },
                )
            }),
    {
        let mut q = self;
        let ghost before = q@;
        match q.sources.pop() {
            Some(src) => {
                let options = src.options.budget(budget);
                q.sources.push(
                    SourceSpec {
                        collection: src.collection,
                        alias: src.alias,
                        filter: src.filter,
                        options,
                    },
                );
                proof {
                    assert(q@.sources =~= with_last(
                        before,
                        SourceView {
                            options: QueryOptionsView {
                                budget: Some(budget),
                                ..before.sources.last().options
                            },
                            ..before.sources.last()
                        },
                    ).sources);
                }
            },
            None => {},
        }
        q
    }

    /// Bounds what the find of the source added last returns.
    pub fn source_limit(self, n: usize) -> (r: MultiQuery)
        ensures
            r@ == (if self@.sources.len() == 0 {
                self@
            } else {
                with_last(
                    self@,
                    SourceView {
                        options: QueryOptionsView {
                            limit: Some(n),
                            ..self@.sources.last().options
                        },
                        ..self@.sources.last()
                    },
                )
            }),
    {
        let mut q = self;
        let ghost before = q@;
        match q.sources.pop() {
            Some(src) => {
                let options = src.options.limit(n);
                q.sources.push(
                    SourceSpec {
                        collection: src.collection,
                        alias: src.alias,
                        filter: src.filter,
                        options,
                    },
                );
                proof {
                    assert(q@.sources =~= with_last(
                        before,
                        SourceView {
                            options: QueryOptionsView {
                                limit: Some(n),
                                ..before.sources.last().options
                            },
                            ..before.sources.last()
                        },
                    ).sources);
                }
            },
            None => {},
        }
        q
    }

    /// Begins an inner join of a collection, under its own name.
    pub fn join(self, collection: &str) -> (r: JoinBuilder)
        ensures
            r@ == (JoinBuilderView { query: self@, right: whole(collection@, collection@) }),
    {
        self.join_as(collection, collection)
    }

    /// Begins an inner join of a collection, under an alias.
    pub fn join_as(self, collection: &str, alias: &str) -> (r: JoinBuilder)
        ensures
            r@ == (JoinBuilderView { query: self@, right: whole(collection@, alias@) }),
    {
        JoinBuilder {
            query: self,
            right: SourceSpec {
                collection: collection.to_string(),
                alias: alias.to_string(),
                filter: Filter::always(),
                options: QueryOptions::default(),
            },
        }
    }

    /// Bounds the number of joined rows.
    pub fn limit(self, n: usize) -> (r: MultiQuery)
        ensures
            r@ == (MultiQueryView { limit: Some(n), ..self@ }),
    {
        let mut q = self;
        q.limit = Some(n);
        q
    }

    /// Puts the key of each document into it as `_key`.
    pub fn include_keys(self) -> (r: MultiQuery)
        ensures
            r@ == (MultiQueryView { include_keys: true, ..self@ }),
    {
        let mut q = self;
        q.include_keys = true;
        q
    }
}

/// A query with one more source joined.
pub open spec fn joined_query(
    b: JoinBuilderView,
    left_alias: Seq<char>,
    left_field: Seq<char>,
    right_field: Seq<char>,
) -> MultiQueryView {
    MultiQueryView {
        sources: b.query.sources.push(b.right),
        joins: b.query.joins.push(JoinView { left_alias, left_field, right_field }),
        ..b.query
    }
}

impl JoinBuilder {
    /// Sets the filter of the right-hand collection.
    pub fn filter(self, f: Filter) -> (r: JoinBuilder)
        ensures
            r@ == (JoinBuilderView { right: SourceView { filter: f@, ..self@.right }, ..self@ }),
    {
        let mut b = self;
        b.right.filter = f;
        b
    }

    /// Narrows the right-hand collection by one more filter.
    pub fn and_filter(self, f: Filter) -> (r: JoinBuilder)
        ensures
            r@ == right_narrowed(self@, f@),
    {
        JoinBuilder {
            query: self.query,
            right: SourceSpec {
                collection: self.right.collection,
                alias: self.right.alias,
                filter: and_both(self.right.filter, f),
                options: self.right.options,
            },
        }
    }

    /// `field == value` on the right-hand collection.
    pub fn where_eq(self, field: &str, value: Json) -> (r: JoinBuilder)
        ensures
            r@ == right_narrowed(self@, FilterView::Field { path: field@, pred: PredView::Eq(value@) }),
    {
        self.and_filter(Filter::field(field).eq(value))
    }

    /// `field != value` on the right-hand collection.
    pub fn where_ne(self, field: &str, value: Json) -> (r: JoinBuilder)
        ensures
            r@ == right_narrowed(self@, FilterView::Field { path: field@, pred: PredView::Ne(value@) }),
    {
        self.and_filter(Filter::field(field).ne(value))
    }

    /// `field < value` on the right-hand collection.
    pub fn where_lt(self, field: &str, value: Json) -> (r: JoinBuilder)
        ensures
            r@ == right_narrowed(self@, FilterView::Field { path: field@, pred: PredView::Lt(value@) }),
    {
        self.and_filter(Filter::field(field).lt(value))
    }

    /// `field <= value` on the right-hand collection.
    pub fn where_lte(self, field: &str, value: Json) -> (r: JoinBuilder)
        ensures
            r@ == right_narrowed(self@, FilterView::Field { path: field@, pred: PredView::Lte(value@) }),
    {
        self.and_filter(Filter::field(field).lte(value))
    }

    /// `field > value` on the right-hand collection.
    pub fn where_gt(self, field: &str, value: Json) -> (r: JoinBuilder)
        ensures
            r@ == right_narrowed(self@, FilterView::Field { path: field@, pred: PredView::Gt(value@) }),
    {
        self.and_filter(Filter::field(field).gt(value))
    }

    /// `field >= value` on the right-hand collection.
    pub fn where_gte(self, field: &str, value: Json) -> (r: JoinBuilder)
        ensures
            r@ == right_narrowed(self@, FilterView::Field { path: field@, pred: PredView::Gte(value@) }),
    {
        self.and_filter(Filter::field(field).gte(value))
    }

    /// `field` is one of `values` on the right-hand collection.
    pub fn where_in(self, field: &str, values: Vec<Json>) -> (r: JoinBuilder)
        ensures
            r@ == right_narrowed(self@, FilterView::Field { path: field@, pred: PredView::In(models(values@)) }),
    {
        self.and_filter(Filter::field(field).is_in(values))
    }

    /// Bounds what the find of the right-hand collection examines.
    pub fn source_budget(self, budget: QueryBudget) -> (r: JoinBuilder)
        ensures
            r@ == (JoinBuilderView {
                right: SourceView {
                    options: QueryOptionsView { budget: Some(budget), ..self@.right.options },
                    ..self@.right
                },
                ..self@
            }),
    {
        let mut b = self;
        b.right.options.budget = Some(budget);
        b
    }

    /// Bounds what the find of the right-hand collection returns.
    pub fn source_limit(self, n: usize) -> (r: JoinBuilder)
        ensures
            r@ == (JoinBuilderView {
                right: SourceView {
                    options: QueryOptionsView { limit: Some(n), ..self@.right.options },
                    ..self@.right
                },
                ..self@
            }),
    {
        let mut b = self;
        b.right.options.limit = Some(n);
        b
    }

    /// Joins on equal values of a field of the first source and a field of
    /// the right-hand collection.
    pub fn on(self, left_field: &str, right_field: &str) -> (r: MultiQuery)
        ensures
            r@ == joined_query(
                self@,
                if self@.query.sources.len() == 0 {
                    Seq::empty()
                } else {
                    self@.query.sources[0].alias
                },
                left_field@,
                right_field@,
            ),
    {
        let left_alias = if self.query.sources.len() == 0 {
            String::new()
        } else {
            self.query.sources[0].alias.clone()
        };
        self.on_from(left_alias.as_str(), left_field, right_field)
    }

    /// Joins on equal values of a field of a named source and a field of the
    /// right-hand collection.
    pub fn on_from(self, left_alias: &str, left_field: &str, right_field: &str) -> (r: MultiQuery)
        ensures
            r@ == joined_query(self@, left_alias@, left_field@, right_field@),
    {
        let ghost before = self@;
        let mut q = self.query;
        q.sources.push(self.right);
        q.joins.push(
            JoinSpec {
                left_alias: left_alias.to_string(),
                left_field: left_field.to_string(),
                right_field: right_field.to_string(),
            },
        );
        proof {
            assert(q@.sources =~= before.query.sources.push(before.right));
            assert(q@.joins =~= before.query.joins.push(
                JoinView {
                    left_alias: left_alias@,
                    left_field: left_field@,
                    right_field: right_field@,
                },
            ));
        }
        q
    }
}

/// A document as a member of a joined row.
pub open spec fn namespaced(doc: JsonView, key: Seq<char>, include_keys: bool) -> JsonView {
    if !include_keys {
        doc
    } else {
        match doc {
            JsonView::Object(m) => JsonView::Object(with_member(m, "_key"@, JsonView::Text(key))),
            _ => JsonView::Object(
                with_member(
                    with_member(Seq::empty(), "_key"@, JsonView::Text(key)),
                    "_value"@,
                    doc,
                ),
            ),
        }
    }
}

/// A document as a member of a joined row. A `_key` that is there already is
/// overwritten; a document that is no object is put beside its key.
pub fn namespaced_doc(doc: &Json, key: &str, include_keys: bool) -> (r: Json)
    ensures
        r@ == namespaced(doc@, key@, include_keys),
{
    broadcast use group_json_model;

    if !include_keys {
        return doc.clone();
    }
    match doc {
        Json::Object(m) => {
            let mut out = m.clone();
            out.insert("_key".to_string(), text_value(key));
            Json::Object(out)
        },
        other => {
            let mut out = JsonMap::new();
            out.insert("_key".to_string(), text_value(key));
            out.insert("_value".to_string(), other.clone());
            Json::Object(out)
        },
    }
}

/// The text by which a join compares values.
pub open spec fn key_text(v: JsonView) -> Seq<char> {
    match v {
        JsonView::Null => "null"@,
        JsonView::Bool(true) => "b:true"@,
        JsonView::Bool(false) => "b:false"@,
        JsonView::Number(_) => "n:"@ + json_text(v),
        JsonView::Text(s) => "s:"@ + s,
        _ => "j:"@ + json_text(v),
    }
}

/// The text by which a join compares values.
pub fn join_key(v: &Json) -> (r: String)
    ensures
        r@ == key_text(v@),
{
    match v {
        Json::Null => "null".to_string(),
        Json::Bool(true) => "b:true".to_string(),
        Json::Bool(false) => "b:false".to_string(),
        Json::Number(_) => cat2("n:", write_json(v).as_str()),
        Json::Text(s) => cat2("s:", s.as_str()),
        _ => cat2("j:", write_json(v).as_str()),
    }
}

/// Values of one kind; arrays and objects count as one.
pub open spec fn one_kind(a: JsonView, b: JsonView) -> bool {
    match a {
        JsonView::Null => b is Null,
        JsonView::Bool(_) => b is Bool,
        JsonView::Number(_) => b is Number,
        JsonView::Text(_) => b is Text,
        _ => b is Array || b is Object,
    }
}

/// A join takes no value of one kind for one of another, and two texts or two
/// truth values only where they are equal.
pub proof fn law_join_key_tells_values_apart(a: JsonView, b: JsonView)
    requires
        key_text(a) == key_text(b),
    ensures
        one_kind(a, b),
        a is Null || a is Bool || a is Text ==> a == b,
{
    reveal_strlit("null");
    reveal_strlit("b:true");
    reveal_strlit("b:false");
    reveal_strlit("n:");
    reveal_strlit("s:");
    reveal_strlit("j:");
    assert("null"@[1] == 'u');
    assert("b:true"@[0] == 'b' && "b:true"@[1] == ':');
    assert("b:false"@[0] == 'b' && "b:false"@[1] == ':');
    assert("b:true"@.len() != "b:false"@.len());
    let x = key_text(a);
    let y = key_text(b);
    assert(a is Number ==> x[0] == 'n' && x[1] == ':');
    assert(b is Number ==> y[0] == 'n' && y[1] == ':');
    assert(a is Text ==> x[0] == 's' && x[1] == ':');
    assert(b is Text ==> y[0] == 's' && y[1] == ':');
    assert(a is Array || a is Object ==> x[0] == 'j' && x[1] == ':');
    assert(b is Array || b is Object ==> y[0] == 'j' && y[1] == ':');
    if a is Text {
        assert(a->Text_0 =~= x.skip(2));
        assert(b->Text_0 =~= y.skip(2));
    }
}

/// The members of a joined row.
pub type RowMembers = Seq<(Seq<char>, JsonView)>;

/// The comparison text of a field of a document, where the field is there.
pub open spec fn field_key(doc: JsonView, field: Seq<char>) -> Option<Seq<char>> {
    match field_value(doc, field) {
        Some(v) => Some(key_text(v)),
        None => None,
    }
}

/// A row with every document of the right side whose field has the same value.
pub open spec fn row_joined(
    left: RowMembers,
    key: Seq<char>,
    rights: Seq<(Seq<char>, JsonView)>,
    right_field: Seq<char>,
    right_alias: Seq<char>,
    include_keys: bool,
) -> Seq<RowMembers>
    decreases rights.len(),
{
    if rights.len() == 0 {
        Seq::empty()
    } else {
        let before = row_joined(
            left,
            key,
            rights.drop_last(),
            right_field,
            right_alias,
            include_keys,
        );
        let right = rights.last();
        if field_key(right.1, right_field) == Some(key) {
            before.push(with_member(left, right_alias, namespaced(right.1, right.0, include_keys)))
        } else {
            before
        }
    }
}

/// Rows joined with a source: a row whose field is missing is dropped; a row
/// without the named source refuses the query.
pub open spec fn rows_joined(
    lefts: Seq<RowMembers>,
    join: JoinView,
    rights: Seq<(Seq<char>, JsonView)>,
    right_alias: Seq<char>,
    include_keys: bool,
) -> Result<Seq<RowMembers>, ErrorView>
    decreases lefts.len(),
{
    if lefts.len() == 0 {
        Ok(Seq::empty())
    } else {
        match rows_joined(lefts.drop_last(), join, rights, right_alias, include_keys) {
            Err(e) => Err(e),
            Ok(before) => match lookup(lefts.last(), join.left_alias) {
                None => Err(
                    ErrorView::QueryInvalid(
                        "join left alias "@ + debug_quoted(join.left_alias)
                            + " not present in row (check .on_from)"@,
                    ),
                ),
                Some(doc) => match field_key(doc, join.left_field) {
                    None => Ok(before),
                    Some(key) => Ok(
                        before + row_joined(
                            lefts.last(),
                            key,
                            rights,
                            join.right_field,
                            right_alias,
                            include_keys,
                        ),
                    ),
                },
            },
        }
    }
}

/// The rows of the first source.
pub open spec fn seeded(
    rows: Seq<(Seq<char>, JsonView)>,
    alias: Seq<char>,
    include_keys: bool,
) -> Seq<RowMembers> {
    Seq::new(
        rows.len(),
        |i: int|
            with_member(Seq::empty(), alias, namespaced(rows[i].1, rows[i].0, include_keys)),
    )
}

/// The rows after the first joins of a query.
pub open spec fn joined_rows(
    q: MultiQueryView,
    loaded: Seq<Seq<(Seq<char>, JsonView)>>,
    n: nat,
) -> Result<Seq<RowMembers>, ErrorView>
    decreases n,
{
    if n == 0 {
        Ok(seeded(loaded[0], q.sources[0].alias, q.include_keys))
    } else {
        match joined_rows(q, loaded, (n - 1) as nat) {
            Err(e) => Err(e),
            Ok(rows) => rows_joined(
                rows,
                q.joins[n - 1],
                loaded[n as int],
                q.sources[n as int].alias,
                q.include_keys,
            ),
        }
    }
}

/// The result of a query: the joined rows as objects, no more than the limit.
pub open spec fn query_result(
    q: MultiQueryView,
    loaded: Seq<Seq<(Seq<char>, JsonView)>>,
) -> Result<Seq<JsonView>, ErrorView> {
    match joined_rows(q, loaded, q.joins.len()) {
        Err(e) => Err(e),
        Ok(rows) => Ok(
            (if q.limit is Some && q.limit->0 < rows.len() {
                rows.take(q.limit->0 as int)
            } else {
                rows
            }).map_values(|m: RowMembers| JsonView::Object(m)),
        ),
    }
}

/// The models of object rows.
pub open spec fn map_views(v: Seq<JsonMap>) -> Seq<RowMembers> {
    v.map_values(|m: JsonMap| m@)
}

/// The models of the rows of all sources.
pub open spec fn loaded_models(v: Seq<Vec<(String, Json)>>) -> Seq<Seq<(Seq<char>, JsonView)>> {
    v.map_values(|rows: Vec<(String, Json)>| row_models(rows@))
}

fn field_key_of(doc: &Json, field: &str) -> (r: Option<String>)
    ensures
        match r {
            Some(k) => field_key(doc@, field@) == Some(k@),
            None => field_key(doc@, field@) is None,
        },
{
    match resolve_path_value(doc, field) {
        Some(v) => Some(join_key(v)),
        None => None,
    }
}

/// The comparison texts of the right side, once for all rows.
fn right_keys(rights: &Vec<(String, Json)>, field: &str) -> (r: Vec<Option<String>>)
    ensures
        r@.len() == rights@.len(),
        forall|i: int|
            0 <= i < r@.len() ==> (match #[trigger] r@[i] {
                Some(k) => field_key(rights@[i].1@, field@) == Some(k@),
                None => field_key(rights@[i].1@, field@) is None,
            }),
{
    let mut out: Vec<Option<String>> = Vec::new();
    let mut i: usize = 0;
    while i < rights.len()
        invariant
            i <= rights@.len(),
            out@.len() == i,
            forall|k: int|
                0 <= k < i ==> (match #[trigger] out@[k] {
                    Some(t) => field_key(rights@[k].1@, field@) == Some(t@),
                    None => field_key(rights@[k].1@, field@) is None,
                }),
        decreases rights@.len() - i,
    {
        out.push(field_key_of(&rights[i].1, field));
        i = i + 1;
    }
    out
}

fn join_row(
    out: &mut Vec<JsonMap>,
    left: &JsonMap,
    key: &str,
    rights: &Vec<(String, Json)>,
    keys: &Vec<Option<String>>,
    right_field: &str,
    right_alias: &str,
    include_keys: bool,
)
    requires
        keys@.len() == rights@.len(),
        forall|i: int|
            0 <= i < keys@.len() ==> (match #[trigger] keys@[i] {
                Some(k) => field_key(rights@[i].1@, right_field@) == Some(k@),
                None => field_key(rights@[i].1@, right_field@) is None,
            }),
    ensures
        map_views(final(out)@) == map_views(old(out)@) + row_joined(
            left@,
            key@,
            row_models(rights@),
            right_field@,
            right_alias@,
            include_keys,
        ),
{
    let ghost start = map_views(out@);
    let ghost all = row_models(rights@);
    let mut i: usize = 0;
    proof {
        assert(all.take(0) =~= Seq::empty());
        assert(start + Seq::<RowMembers>::empty() =~= start);
    }
    while i < rights.len()
        invariant
            i <= rights@.len(),
            all == row_models(rights@),
            keys@.len() == rights@.len(),
            forall|i: int|
                0 <= i < keys@.len() ==> (match #[trigger] keys@[i] {
                    Some(k) => field_key(rights@[i].1@, right_field@) == Some(k@),
                    None => field_key(rights@[i].1@, right_field@) is None,
                }),
            map_views(out@) == start + row_joined(
                left@,
                key@,
                all.take(i as int),
                right_field@,
                right_alias@,
                include_keys,
            ),
        decreases rights@.len() - i,
    {
        let ghost before = map_views(out@);
        proof {
            assert(all.take(i + 1).drop_last() =~= all.take(i as int));
            assert(all.take(i + 1).last() == (rights@[i as int].0@, rights@[i as int].1@));
        }
        let same = match &keys[i] {
            Some(k) => same_text(k.as_str(), key),
            None => false,
        };
        if same {
            let mut combined = left.clone();
            combined.insert(
                right_alias.to_string(),
                namespaced_doc(&rights[i].1, rights[i].0.as_str(), include_keys),
            );
            out.push(combined);
            proof {
                assert(map_views(out@) =~= before.push(combined@));
                assert(map_views(out@) =~= start + row_joined(
                    left@,
                    key@,
                    all.take(i + 1),
                    right_field@,
                    right_alias@,
                    include_keys,
                ));
            }
        }
        i = i + 1;
    }
    proof {
        assert(all.take(all.len() as int) =~= all);
    }
}

proof fn lemma_rows_refused(
    lefts: Seq<RowMembers>,
    join: JoinView,
    rights: Seq<(Seq<char>, JsonView)>,
    right_alias: Seq<char>,
    include_keys: bool,
    n: int,
)
    requires
        0 <= n <= lefts.len(),
        rows_joined(lefts.take(n), join, rights, right_alias, include_keys) is Err,
    ensures
        rows_joined(lefts, join, rights, right_alias, include_keys) == rows_joined(
            lefts.take(n),
            join,
            rights,
            right_alias,
            include_keys,
        ),
    decreases lefts.len(),
{
    if n < lefts.len() {
        assert(lefts.drop_last().take(n) =~= lefts.take(n));
        lemma_rows_refused(lefts.drop_last(), join, rights, right_alias, include_keys, n);
    } else {
        assert(lefts.take(n) =~= lefts);
    }
}

fn join_all(
    lefts: &Vec<JsonMap>,
    join: &JoinSpec,
    rights: &Vec<(String, Json)>,
    right_alias: &str,
    include_keys: bool,
) -> (r: Result<Vec<JsonMap>, Error>)
    ensures
        ({
            let s = rows_joined(
                map_views(lefts@),
                join@,
                row_models(rights@),
                right_alias@,
                include_keys,
            );
            match r {
                Ok(rows) => s == Ok::<Seq<RowMembers>, ErrorView>(map_views(rows@)),
                Err(e) => s == Err::<Seq<RowMembers>, ErrorView>(e@),
            }
        }),
{
    let ghost all = map_views(lefts@);
    let ghost models = row_models(rights@);
    let keys = right_keys(rights, join.right_field.as_str());
    let mut out: Vec<JsonMap> = Vec::new();
    let mut i: usize = 0;
    proof {
        assert(all.take(0) =~= Seq::empty());
        assert(map_views(out@) =~= Seq::empty());
    }
    while i < lefts.len()
        invariant
            i <= lefts@.len(),
            all == map_views(lefts@),
            models == row_models(rights@),
            keys@.len() == rights@.len(),
            forall|i: int|
                0 <= i < keys@.len() ==> (match #[trigger] keys@[i] {
                    Some(k) => field_key(rights@[i].1@, join@.right_field) == Some(k@),
                    None => field_key(rights@[i].1@, join@.right_field) is None,
                }),
            rows_joined(all.take(i as int), join@, models, right_alias@, include_keys) == Ok::<
                Seq<RowMembers>,
                ErrorView,
            >(map_views(out@)),
        decreases lefts@.len() - i,
    {
        proof {
            assert(all.take(i + 1).drop_last() =~= all.take(i as int));
            assert(all.take(i + 1).last() == lefts@[i as int]@);
        }
        match lefts[i].get(join.left_alias.as_str()) {
            None => {
                proof {
                    lemma_rows_refused(all, join@, models, right_alias@, include_keys, i + 1);
                }
                return Err(
                    Error::QueryInvalid(
                        cat3(
                            "join left alias ",
                            debug_text(join.left_alias.as_str()).as_str(),
                            " not present in row (check .on_from)",
                        ),
                    ),
                );
            },
            Some(doc) => match field_key_of(doc, join.left_field.as_str()) {
                None => {},
                Some(key) => {
                    join_row(
                        &mut out,
                        &lefts[i],
                        key.as_str(),
                        rights,
                        &keys,
                        join.right_field.as_str(),
                        right_alias,
                        include_keys,
                    );
                },
            },
        }
        i = i + 1;
    }
    proof {
        assert(all.take(all.len() as int) =~= all);
    }
    Ok(out)
}

fn seed(rows: &Vec<(String, Json)>, alias: &str, include_keys: bool) -> (r: Vec<JsonMap>)
    ensures
        map_views(r@) == seeded(row_models(rows@), alias@, include_keys),
{
    let ghost all = seeded(row_models(rows@), alias@, include_keys);
    let mut out: Vec<JsonMap> = Vec::new();
    let mut i: usize = 0;
    proof {
        assert(map_views(out@) =~= all.take(0));
    }
    while i < rows.len()
        invariant
            i <= rows@.len(),
            all == seeded(row_models(rows@), alias@, include_keys),
            map_views(out@) == all.take(i as int),
        decreases rows@.len() - i,
    {
        let ghost before = map_views(out@);
        let mut m = JsonMap::new();
        m.insert(
            alias.to_string(),
            namespaced_doc(&rows[i].1, rows[i].0.as_str(), include_keys),
        );
        out.push(m);
        proof {
            assert(map_views(out@) =~= before.push(all[i as int]));
            assert(map_views(out@) =~= all.take(i + 1));
        }
        i = i + 1;
    }
    proof {
        assert(all.take(all.len() as int) =~= all);
    }
    out
}

/// The first alias that was used before, where there is one.
pub open spec fn repeated_alias(sources: Seq<SourceView>) -> Option<Seq<char>>
    decreases sources.len(),
{
    if sources.len() == 0 {
        None
    } else {
        match repeated_alias(sources.drop_last()) {
            Some(a) => Some(a),
            None => if exists|i: int|
                0 <= i < sources.len() - 1 && (#[trigger] sources[i]).alias
                    == sources.last().alias {
                Some(sources.last().alias)
            } else {
                None
            },
        }
    }
}

/// The first source that is refused: `bad_name` is the first one whose
/// collection name is refused, and why.
pub open spec fn refused_source(
    sources: Seq<SourceView>,
    bad_name: Option<(usize, ErrorView)>,
    from: int,
) -> Option<ErrorView>
    decreases sources.len() - from,
{
    if from < 0 || from >= sources.len() {
        None
    } else if bad_name matches Some(b) && b.0 == from {
        match bad_name {
            Some(b) => Some(b.1),
            None => None,
        }
    } else if sources[from].alias.len() == 0 {
        Some(ErrorView::QueryInvalid("join source alias must be non-empty"@))
    } else {
        refused_source(sources, bad_name, from + 1)
    }
}

/// Why a query is refused before it runs, where it is.
pub open spec fn query_refused(q: MultiQueryView, bad_name: Option<(usize, ErrorView)>) -> Option<
    ErrorView,
> {
    if q.sources.len() == 0 {
        Some(
            ErrorView::QueryInvalid(
                "multi-query requires .from(\"collection\") before collect"@,
            ),
        )
    } else if q.joins.len() + 1 != q.sources.len() {
        Some(
            ErrorView::QueryInvalid(
                "internal: join count must be sources-1 (call .on after each .join)"@,
            ),
        )
    } else {
        match refused_source(q.sources, bad_name, 0) {
            Some(e) => Some(e),
            None => match repeated_alias(q.sources) {
                Some(a) => Some(ErrorView::QueryInvalid("duplicate join alias "@ + debug_quoted(a))),
                None => None,
            },
        }
    }
}

fn find_repeated(sources: &Vec<SourceSpec>) -> (r: Option<String>)
    ensures
        match r {
            Some(a) => repeated_alias(source_views(sources@)) == Some(a@),
            None => repeated_alias(source_views(sources@)) is None,
        },
{
    let ghost all = source_views(sources@);
    let mut i: usize = 0;
    proof {
        assert(all.take(0) =~= Seq::empty());
    }
    while i < sources.len()
        invariant
            i <= sources@.len(),
            all == source_views(sources@),
            repeated_alias(all.take(i as int)) is None,
        decreases sources@.len() - i,
    {
        let ghost here = all.take(i + 1);
        proof {
            assert(here.drop_last() =~= all.take(i as int));
            assert(here.last() == all[i as int]);
        }
        let mut k: usize = 0;
        while k < i
            invariant
                k <= i < sources@.len(),
                all == source_views(sources@),
                here == all.take(i + 1),
                here.drop_last() == all.take(i as int),
                here.last() == all[i as int],
                repeated_alias(all.take(i as int)) is None,
                forall|j: int| 0 <= j < k ==> (#[trigger] here[j]).alias != here.last().alias,
            decreases i - k,
        {
            if same_text(sources[k].alias.as_str(), sources[i].alias.as_str()) {
                proof {
                    assert(here[k as int].alias == here.last().alias);
                    assert(repeated_alias(here) == Some(all[i as int].alias));
                    lemma_repeated_stays(all, i + 1);
                }
                return Some(sources[i].alias.clone());
            }
            proof {
                assert(here[k as int] == all[k as int]);
            }
            k = k + 1;
        }
        i = i + 1;
    }
    proof {
        assert(all.take(all.len() as int) =~= all);
    }
    None
}

proof fn lemma_repeated_stays(sources: Seq<SourceView>, n: int)
    requires
        0 <= n <= sources.len(),
        repeated_alias(sources.take(n)) is Some,
    ensures
        repeated_alias(sources) == repeated_alias(sources.take(n)),
    decreases sources.len(),
{
    if n < sources.len() {
        assert(sources.drop_last().take(n) =~= sources.take(n));
        lemma_repeated_stays(sources.drop_last(), n);
    } else {
        assert(sources.take(n) =~= sources);
    }
}

/// The model of the first refused name.
pub open spec fn bad_name_view(bad_name: Option<(usize, Error)>) -> Option<(usize, ErrorView)> {
    match bad_name {
        Some(b) => Some((b.0, b.1@)),
        None => None,
    }
}

impl MultiQuery {
    /// Checks the query before its sources are read. `bad_name` is the first
    /// source whose collection name is refused, and why.
    pub fn check(&self, bad_name: Option<(usize, Error)>) -> (r: Result<(), Error>)
        ensures
            match r {
                Ok(_) => query_refused(self@, bad_name_view(bad_name)) is None,
                Err(e) => query_refused(self@, bad_name_view(bad_name)) == Some(e@),
            },
            r is Ok ==> self.joins@.len() + 1 == self.sources@.len(),
    {
        if self.sources.len() == 0 {
            return Err(
                Error::QueryInvalid(
                    "multi-query requires .from(\"collection\") before collect".to_string(),
                ),
            );
        }
        if self.joins.len() != self.sources.len() - 1 {
            return Err(
                Error::QueryInvalid(
                    "internal: join count must be sources-1 (call .on after each .join)".to_string(),
                ),
            );
        }
        let ghost bad = bad_name_view(bad_name);
        let ghost all = self@.sources;
        let bad_at: Option<usize> = match &bad_name {
            Some(b) => Some(b.0),
            None => None,
        };
        let mut i: usize = 0;
        let mut refused = false;
        while i < self.sources.len() && !refused
            invariant
                i <= self.sources@.len(),
                self.sources@.len() > 0,
                self.joins@.len() + 1 == self.sources@.len(),
                all == self@.sources,
                bad == bad_name_view(bad_name),
                bad_at == (match bad {
                    Some(b) => Some(b.0),
                    None => None,
                }),
                refused_source(all, bad, 0) == refused_source(all, bad, i as int),
                refused ==> i < self.sources@.len() && bad_at == Some(i),
            decreases self.sources@.len() - i, !refused as int,
        {
            let here = match bad_at {
                Some(k) => k == i,
                None => false,
            };
            if here {
                refused = true;
            } else {
                if self.sources[i].alias.as_str().is_empty() {
                    return Err(
                        Error::QueryInvalid("join source alias must be non-empty".to_string()),
                    );
                }
                i = i + 1;
            }
        }
        if refused {
            match bad_name {
                Some(b) => {
                    return Err(b.1);
                },
                None => {},
            }
        }
        match find_repeated(&self.sources) {
            Some(a) => Err(
                Error::QueryInvalid(
                    cat2("duplicate join alias ", debug_text(a.as_str()).as_str()),
                ),
            ),
            None => Ok(()),
        }
    }

    /// Joins the rows that the finds of the sources gave, one list per source.
    pub fn collect(&self, loaded: &Vec<Vec<(String, Json)>>) -> (r: Result<Vec<Json>, Error>)
        requires
            self.joins@.len() + 1 == self.sources@.len(),
            loaded@.len() == self.sources@.len(),
        ensures
            match r {
                Ok(rows) => query_result(self@, loaded_models(loaded@)) == Ok::<
                    Seq<JsonView>,
                    ErrorView,
                >(models(rows@)),
                Err(e) => query_result(self@, loaded_models(loaded@)) == Err::<
                    Seq<JsonView>,
                    ErrorView,
                >(e@),
            },
    {
        let ghost q = self@;
        let ghost lists = loaded_models(loaded@);
        let mut working = seed(&loaded[0], self.sources[0].alias.as_str(), self.include_keys);
        let mut i: usize = 0;
        while i < self.joins.len()
            invariant
                i <= self.joins@.len(),
                self.joins@.len() + 1 == self.sources@.len(),
                loaded@.len() == self.sources@.len(),
                q == self@,
                lists == loaded_models(loaded@),
                joined_rows(q, lists, i as nat) == Ok::<Seq<RowMembers>, ErrorView>(
                    map_views(working@),
                ),
            decreases self.joins@.len() - i,
        {
            let next = join_all(
                &working,
                &self.joins[i],
                &loaded[i + 1],
                self.sources[i + 1].alias.as_str(),
                self.include_keys,
            );
            match next {
                Ok(rows) => {
                    working = rows;
                },
                Err(e) => {
                    proof {
                        assert(joined_rows(q, lists, (i + 1) as nat) == Err::<
                            Seq<RowMembers>,
                            ErrorView,
                        >(e@));
                        lemma_joins_refused(q, lists, (i + 1) as nat, q.joins.len());
                    }
                    return Err(e);
                },
            }
            i = i + 1;
        }
        let ghost full = map_views(working@);
        if let Some(n) = self.limit {
            if n < working.len() {
                working.truncate(n);
            }
        }
        let ghost kept = map_views(working@);
        proof {
            assert(kept =~= if q.limit is Some && q.limit->0 < full.len() {
                full.take(q.limit->0 as int)
            } else {
                full
            });
        }
        let rows = objects(working);
        proof {
            assert(models(rows@) =~= kept.map_values(|m: RowMembers| JsonView::Object(m)));
        }
        Ok(rows)
    }
}

proof fn lemma_joins_refused(
    q: MultiQueryView,
    loaded: Seq<Seq<(Seq<char>, JsonView)>>,
    n: nat,
    m: nat,
)
    requires
        n <= m,
        joined_rows(q, loaded, n) is Err,
    ensures
        joined_rows(q, loaded, m) == joined_rows(q, loaded, n),
    decreases m,
{
    if n < m {
        lemma_joins_refused(q, loaded, n, (m - 1) as nat);
    }
}

fn objects(maps: Vec<JsonMap>) -> (r: Vec<Json>)
    ensures
        models(r@) == map_views(maps@).map_values(|m: RowMembers| JsonView::Object(m)),
{
    broadcast use group_json_model;

    let ghost all = map_views(maps@).map_values(|m: RowMembers| JsonView::Object(m));
    let mut rest = crate::covered_reads::queue_of(maps);
    let mut out: Vec<Json> = Vec::new();
    let ghost mut i: int = 0;
    while rest.len() > 0
        invariant
            all == map_views(maps@).map_values(|m: RowMembers| JsonView::Object(m)),
            0 <= i <= maps@.len(),
            rest@ =~= maps@.skip(i),
            models(out@) =~= all.take(i),
        decreases rest@.len(),
    {
        if let Some(m) = rest.pop_front() {
            let ghost before = models(out@);
            out.push(Json::Object(m));
            proof {
                assert(m == maps@[i]);
                crate::json::lemma_object_model(m);
                assert(models(out@) =~= before.push(JsonView::Object(m@)));
                i = i + 1;
            }
        }
    }
    proof {
        assert(all.take(i) =~= all);
    }
    out
}

/// A row is a left row with a document of the right side that has the value.
pub open spec fn from_pair(
    row: RowMembers,
    left: RowMembers,
    key: Seq<char>,
    rights: Seq<(Seq<char>, JsonView)>,
    right_field: Seq<char>,
    right_alias: Seq<char>,
    include_keys: bool,
) -> bool {
    exists|j: int|
        0 <= j < rights.len() && field_key((#[trigger] rights[j]).1, right_field) == Some(key)
            && row == with_member(
            left,
            right_alias,
            namespaced(rights[j].1, rights[j].0, include_keys),
        )
}

/// A joined row comes from a left row and a right document with the same value,
/// and every such pair gives a row.
pub proof fn law_join_is_by_equal_keys(
    left: RowMembers,
    key: Seq<char>,
    rights: Seq<(Seq<char>, JsonView)>,
    right_field: Seq<char>,
    right_alias: Seq<char>,
    include_keys: bool,
)
    ensures
        ({
            let rows = row_joined(left, key, rights, right_field, right_alias, include_keys);
            forall|row: RowMembers| #[trigger]
                rows.contains(row) <==> from_pair(
                    row,
                    left,
                    key,
                    rights,
                    right_field,
                    right_alias,
                    include_keys,
                )
        }),
    decreases rights.len(),
{
    let rows = row_joined(left, key, rights, right_field, right_alias, include_keys);
    if rights.len() > 0 {
        let shorter = rights.drop_last();
        let before = row_joined(left, key, shorter, right_field, right_alias, include_keys);
        law_join_is_by_equal_keys(left, key, shorter, right_field, right_alias, include_keys);
        assert forall|row: RowMembers| #[trigger] rows.contains(row) <==> from_pair(
            row,
            left,
            key,
            rights,
            right_field,
            right_alias,
            include_keys,
        ) by {
            if rows.contains(row) {
                let i = choose|i: int| 0 <= i < rows.len() && rows[i] == row;
                if i < before.len() {
                    assert(before[i] == row);
                    assert(before.contains(row));
                    let j = choose|j: int|
                        0 <= j < shorter.len() && field_key((#[trigger] shorter[j]).1, right_field)
                            == Some(key) && row == with_member(
                            left,
                            right_alias,
                            namespaced(shorter[j].1, shorter[j].0, include_keys),
                        );
                    assert(rights[j] == shorter[j]);
                } else {
                    assert(rights[rights.len() - 1] == rights.last());
                }
            }
            if from_pair(row, left, key, rights, right_field, right_alias, include_keys) {
                let j = choose|j: int|
                    0 <= j < rights.len() && field_key((#[trigger] rights[j]).1, right_field)
                        == Some(key) && row == with_member(
                        left,
                        right_alias,
                        namespaced(rights[j].1, rights[j].0, include_keys),
                    );
                if j < shorter.len() {
                    assert(shorter[j] == rights[j]);
                    assert(before.contains(row));
                    let i = choose|i: int| 0 <= i < before.len() && before[i] == row;
                    assert(rows[i] == row);
                } else {
                    assert(rows[rows.len() - 1] == row);
                }
            }
        }
    }
}

/// A query never gives more rows than its limit.
pub proof fn law_limit_bounds_the_result(
    q: MultiQueryView,
    loaded: Seq<Seq<(Seq<char>, JsonView)>>,
)
    ensures
        query_result(q, loaded) is Ok && q.limit is Some ==> query_result(q, loaded)->Ok_0.len()
            <= q.limit->0,
{
}

/// An optional count in a description.
pub open spec fn count_json(n: Option<usize>) -> JsonView {
    match n {
        Some(n) => JsonView::Number(NumberView::PosInt(n as u64)),
        None => JsonView::Null,
    }
}

fn count_value(n: Option<usize>) -> (r: Json)
    ensures
        r@ == count_json(n),
{
    match n {
        Some(n) => Json::Number(JsonNumber::PosInt(n as u64)),
        None => Json::Null,
    }
}

/// The description of a source.
pub open spec fn source_json(s: SourceView) -> JsonView {
    JsonView::Object(
        with_member(
            with_member(
                with_member(
                    with_member(Seq::empty(), "collection"@, JsonView::Text(s.collection)),
                    "alias"@,
                    JsonView::Text(s.alias),
                ),
                "filter_sda"@,
                JsonView::Text(filter_text(s.filter)),
            ),
            "source_limit"@,
            count_json(s.options.limit),
        ),
    )
}

/// The description of a join.
pub open spec fn join_json(j: JoinView, right_alias: Seq<char>) -> JsonView {
    JsonView::Object(
        with_member(
            with_member(
                with_member(
                    with_member(
                        with_member(Seq::empty(), "type"@, JsonView::Text("inner"@)),
                        "left_alias"@,
                        JsonView::Text(j.left_alias),
                    ),
                    "left_field"@,
                    JsonView::Text(j.left_field),
                ),
                "right_alias"@,
                JsonView::Text(right_alias),
            ),
            "right_field"@,
            JsonView::Text(j.right_field),
        ),
    )
}

/// How many joins have a right side.
pub open spec fn paired(q: MultiQueryView) -> nat {
    if q.sources.len() == 0 {
        0
    } else if q.joins.len() < q.sources.len() {
        q.joins.len()
    } else {
        (q.sources.len() - 1) as nat
    }
}

/// The description of a query.
pub open spec fn query_json(q: MultiQueryView) -> JsonView {
    JsonView::Object(
        with_member(
            with_member(
                with_member(
                    with_member(
                        with_member(
                            Seq::empty(),
                            "profile"@,
                            JsonView::Text(MULTI_QUERY_PROFILE@),
                        ),
                        "sources"@,
                        JsonView::Array(q.sources.map_values(|s: SourceView| source_json(s))),
                    ),
                    "joins"@,
                    JsonView::Array(
                        Seq::new(
                            paired(q),
                            |i: int| join_json(q.joins[i], q.sources[i + 1].alias),
                        ),
                    ),
                ),
                "limit"@,
                count_json(q.limit),
            ),
            "include_keys"@,
            JsonView::Bool(q.include_keys),
        ),
    )
}

fn describe_source(s: &SourceSpec) -> (r: Json)
    ensures
        r@ == source_json(s@),
{
    broadcast use group_json_model;

    let mut m = JsonMap::new();
    m.insert("collection".to_string(), text_value(s.collection.as_str()));
    m.insert("alias".to_string(), text_value(s.alias.as_str()));
    m.insert("filter_sda".to_string(), Json::Text(s.filter.to_sda()));
    m.insert("source_limit".to_string(), count_value(s.options.limit));
    Json::Object(m)
}

fn describe_join(j: &JoinSpec, right_alias: &str) -> (r: Json)
    ensures
        r@ == join_json(j@, right_alias@),
{
    broadcast use group_json_model;

    let mut m = JsonMap::new();
    m.insert("type".to_string(), text_value("inner"));
    m.insert("left_alias".to_string(), text_value(j.left_alias.as_str()));
    m.insert("left_field".to_string(), text_value(j.left_field.as_str()));
    m.insert("right_alias".to_string(), text_value(right_alias));
    m.insert("right_field".to_string(), text_value(j.right_field.as_str()));
    Json::Object(m)
}

impl MultiQuery {
    /// Describes the query without running it.
    pub fn describe(&self) -> (r: Json)
        ensures
            r@ == query_json(self@),
    {
        broadcast use group_json_model;

        let ghost q = self@;
        let ghost all = q.sources.map_values(|s: SourceView| source_json(s));
        let mut sources: Vec<Json> = Vec::new();
        let mut i: usize = 0;
        proof {
            assert(models(sources@) =~= all.take(0));
        }
        while i < self.sources.len()
            invariant
                i <= self.sources@.len(),
                all == source_views(self.sources@).map_values(|s: SourceView| source_json(s)),
                models(sources@) == all.take(i as int),
            decreases self.sources@.len() - i,
        {
            let ghost before = models(sources@);
            sources.push(describe_source(&self.sources[i]));
            proof {
                assert(models(sources@) =~= before.push(all[i as int]));
                assert(models(sources@) =~= all.take(i + 1));
            }
            i = i + 1;
        }
        let ghost pairs = Seq::new(
            paired(q),
            |i: int| join_json(q.joins[i], q.sources[i + 1].alias),
        );
        let mut joins: Vec<Json> = Vec::new();
        let mut k: usize = 0;
        proof {
            assert(models(joins@) =~= pairs.take(0));
        }
        while k < self.joins.len() && self.sources.len() > 0 && k < self.sources.len() - 1
            invariant
                k <= paired(q),
                q == self@,
                pairs == Seq::new(
                    paired(q),
                    |i: int| join_json(q.joins[i], q.sources[i + 1].alias),
                ),
                models(joins@) == pairs.take(k as int),
            decreases self.joins@.len() - k,
        {
            let ghost before = models(joins@);
            joins.push(describe_join(&self.joins[k], self.sources[k + 1].alias.as_str()));
            proof {
                assert(models(joins@) =~= before.push(pairs[k as int]));
                assert(models(joins@) =~= pairs.take(k + 1));
            }
            k = k + 1;
        }
        proof {
            assert(all.take(all.len() as int) =~= all);
            assert(k == paired(q));
            assert(pairs.take(pairs.len() as int) =~= pairs);
        }
        let mut m = JsonMap::new();
        m.insert("profile".to_string(), text_value(MULTI_QUERY_PROFILE));
        m.insert("sources".to_string(), Json::Array(sources));
        m.insert("joins".to_string(), Json::Array(joins));
        m.insert("limit".to_string(), count_value(self.limit));
        m.insert("include_keys".to_string(), Json::Bool(self.include_keys));
        Json::Object(m)
    }
}

/// The refusal of an SDA program that does not parse.
pub fn joined_sda_parse_refusal(message: &str, program: &str) -> (r: Error)
    ensures
        r@ == ErrorView::QueryInvalid(
            "multi-query SDA parse failed: "@ + message@ + "; src="@ + program@,
        ),
{
    Error::QueryInvalid(cat4("multi-query SDA parse failed: ", message, "; src=", program))
}

/// What an SDA program over joined rows gives.
pub fn joined_sda_result(outcome: Result<Json, String>, program: &str) -> (r: Result<Json, Error>)
    ensures
        match outcome {
            Ok(v) => r == Ok::<Json, Error>(v),
            Err(m) => r is Err && r->Err_0@ == ErrorView::QueryInvalid(
                "multi-query SDA eval failed: "@ + m@ + "; src="@ + program@,
            ),
        },
{
    match outcome {
        Ok(v) => Ok(v),
        Err(m) => Err(
            Error::QueryInvalid(
                cat4("multi-query SDA eval failed: ", m.as_str(), "; src=", program),
            ),
        ),
    }
}

} // verus!
