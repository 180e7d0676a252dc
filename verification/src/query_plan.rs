//! Serializable query plans and the fluent builder that makes them.
use crate::error::{outcome, query_invalid, Error, ErrorView};
use crate::filter::{
    conjunction, encodable, filter_in, filter_json, filter_models, no_options, same_meaning, Filter,
    FilterView, PredView, QueryBudget, QueryOptions, QueryOptionsView, SortOrder, CancelToken,
    QUERY_PLAN_PROFILE,
};
use crate::json::{
    group_json_model, law_lookup_with_member, lookup, models, text_in, text_value, u64_in,
    with_member, Json, JsonMap, JsonNumber, JsonView, NumberView,
};
use crate::sda_text::filter_text;
use crate::text::{cat2, cat4, debug_quoted, debug_text, same_text};
use vstd::prelude::*;

verus! {

broadcast use group_json_model;

/// Versioned, serializable query plan.
#[derive(Debug, PartialEq)]
pub struct QueryPlan {
    /// Profile tag ([`QUERY_PLAN_PROFILE`]).
    pub profile: String,
    /// Filter expression.
    pub filter: Filter,
    /// Result options.
    pub options: QueryOptions,
}

/// Model of a [`QueryPlan`].
#[verifier::ext_equal]
pub struct QueryPlanView {
    pub profile: Seq<char>,
    pub filter: FilterView,
    pub options: QueryOptionsView,
}

impl View for QueryPlan {
    type V = QueryPlanView;

    open spec fn view(&self) -> QueryPlanView {
        QueryPlanView {
            profile: self.profile@,
            filter: self.filter@,
            options: self.options@,
        }
    }
}

/// An integer as a JSON number.
pub open spec fn count_json(n: u64) -> JsonView {
    JsonView::Number(NumberView::PosInt(n))
}

/// `m`, with `key` set where there is a number to set it to.
pub open spec fn with_count(
    m: Seq<(Seq<char>, JsonView)>,
    key: Seq<char>,
    n: Option<u64>,
) -> Seq<(Seq<char>, JsonView)> {
    match n {
        Some(n) => with_member(m, key, count_json(n)),
        None => m,
    }
}

/// The members of a budget.
pub open spec fn budget_members(b: QueryBudget) -> Seq<(Seq<char>, JsonView)> {
    let docs = match b.max_docs_scanned {
        Some(n) => Some(n as u64),
        None => None,
    };
    with_count(
        with_count(
            with_count(Seq::empty(), "max_docs_scanned"@, docs),
            "max_bytes_scanned"@,
            b.max_bytes_scanned,
        ),
        "max_result_bytes"@,
        b.max_result_bytes,
    )
}

/// The name of a sort direction.
pub open spec fn order_name(order: SortOrder) -> Seq<char> {
    match order {
        SortOrder::Asc => "asc"@,
        SortOrder::Desc => "desc"@,
    }
}

/// The JSON of an order-by.
pub open spec fn order_json(field: Seq<char>, order: SortOrder) -> JsonView {
    JsonView::Object(
        with_member(
            with_member(Seq::empty(), "field"@, JsonView::Text(field)),
            "order"@,
            JsonView::Text(order_name(order)),
        ),
    )
}

/// The members of query options. Only what is set is written; cancellation is
/// not part of a plan.
pub open spec fn options_members(o: QueryOptionsView) -> Seq<(Seq<char>, JsonView)> {
    let m0 = Seq::<(Seq<char>, JsonView)>::empty();
    let m1 = match o.limit {
        Some(n) => with_member(m0, "limit"@, count_json(n as u64)),
        None => m0,
    };
    let m2 = match o.order_by {
        Some(by) => with_member(m1, "order_by"@, order_json(by.0, by.1)),
        None => m1,
    };
    let m3 = match o.budget {
        Some(b) => if budget_members(b).len() == 0 {
            m2
        } else {
            with_member(m2, "budget"@, JsonView::Object(budget_members(b)))
        },
        None => m2,
    };
    let m4 = if o.force_scan {
        with_member(m3, "force_scan"@, JsonView::Bool(true))
    } else {
        m3
    };
    if o.allow_partial_coverage {
        with_member(m4, "allow_partial_coverage"@, JsonView::Bool(true))
    } else {
        m4
    }
}

/// The JSON of a plan.
pub open spec fn plan_json(p: QueryPlanView) -> JsonView {
    JsonView::Object(
        with_member(
            with_member(
                with_member(Seq::empty(), "profile"@, JsonView::Text(p.profile)),
                "filter"@,
                filter_json(p.filter),
            ),
            "options"@,
            JsonView::Object(options_members(p.options)),
        ),
    )
}

/// The number under `key`, where there is one, or the message that asks for a
/// number.
pub open spec fn count_in(
    m: Seq<(Seq<char>, JsonView)>,
    key: Seq<char>,
    message: Seq<char>,
) -> Result<Option<u64>, ErrorView> {
    match lookup(m, key) {
        None => Ok(None),
        Some(v) => match u64_in(v) {
            Some(n) => Ok(Some(n)),
            None => Err(ErrorView::QueryInvalid(message)),
        },
    }
}

/// The order-by that JSON holds.
pub open spec fn order_in(v: JsonView) -> Result<(Seq<char>, SortOrder), ErrorView> {
    match v {
        JsonView::Object(m) => match text_in(lookup(m, "field"@)) {
            None => Err(ErrorView::QueryInvalid("options.order_by.field required"@)),
            Some(field) => match text_in(lookup(m, "order"@)) {
                None => Ok((field, SortOrder::Asc)),
                Some(name) => if name == "asc"@ {
                    Ok((field, SortOrder::Asc))
                } else if name == "desc"@ {
                    Ok((field, SortOrder::Desc))
                } else {
                    Err(
                        ErrorView::QueryInvalid(
                            "options.order_by.order unknown: "@ + debug_quoted(name),
                        ),
                    )
                },
            },
        },
        _ => Err(ErrorView::QueryInvalid("options.order_by must be an object"@)),
    }
}

/// The budget that JSON holds; one that limits nothing is none.
pub open spec fn budget_in(v: JsonView) -> Result<Option<QueryBudget>, ErrorView> {
    match v {
        JsonView::Object(m) => match count_in(
            m,
            "max_docs_scanned"@,
            "budget.max_docs_scanned must be a number"@,
        ) {
            Err(e) => Err(e),
            Ok(docs) => match count_in(
                m,
                "max_bytes_scanned"@,
                "budget.max_bytes_scanned must be a number"@,
            ) {
                Err(e) => Err(e),
                Ok(bytes) => match count_in(
                    m,
                    "max_result_bytes"@,
                    "budget.max_result_bytes must be a number"@,
                ) {
                    Err(e) => Err(e),
                    Ok(memory) => if docs is None && bytes is None && memory is None {
                        Ok(None)
                    } else {
                        Ok(
                            Some(
                                QueryBudget {
                                    max_docs_scanned: match docs {
                                        Some(n) => Some(n as usize),
                                        None => None,
                                    },
                                    max_bytes_scanned: bytes,
                                    max_result_bytes: memory,
                                },
                            ),
                        )
                    },
                },
            },
        },
        _ => Err(ErrorView::QueryInvalid("options.budget must be an object"@)),
    }
}

/// The query options that JSON holds.
pub open spec fn options_in(v: JsonView) -> Result<QueryOptionsView, ErrorView> {
    match v {
        JsonView::Object(m) => match count_in(m, "limit"@, "options.limit must be a number"@) {
            Err(e) => Err(e),
            Ok(limit) => match (match lookup(m, "order_by"@) {
                None => Ok::<Option<(Seq<char>, SortOrder)>, ErrorView>(None),
                Some(by) => match order_in(by) {
                    Err(e) => Err(e),
                    Ok(by) => Ok(Some(by)),
                },
            }) {
                Err(e) => Err(e),
                Ok(order_by) => match (match lookup(m, "budget"@) {
                    None => Ok::<Option<QueryBudget>, ErrorView>(None),
                    Some(b) => budget_in(b),
                }) {
                    Err(e) => Err(e),
                    Ok(budget) => Ok(
                        QueryOptionsView {
                            limit: match limit {
                                Some(n) => Some(n as usize),
                                None => None,
                            },
                            order_by,
                            budget,
                            force_scan: lookup(m, "force_scan"@) == Some(JsonView::Bool(true)),
                            allow_partial_coverage: lookup(m, "allow_partial_coverage"@) == Some(
                                JsonView::Bool(true),
                            ),
                            cancel: None,
                        },
                    ),
                },
            },
        },
        _ => Err(ErrorView::QueryInvalid("query plan options must be a JSON object"@)),
    }
}

/// The plan that JSON holds, or why it holds none.
pub open spec fn plan_in(v: JsonView) -> Result<QueryPlanView, ErrorView> {
    match v {
        JsonView::Object(m) => match text_in(lookup(m, "profile"@)) {
            None => Err(ErrorView::QueryInvalid("query plan missing profile"@)),
            Some(profile) => if profile != QUERY_PLAN_PROFILE@ {
                Err(
                    ErrorView::QueryInvalid(
                        "unsupported query plan profile "@ + debug_quoted(profile) + "; expected "@
                            + debug_quoted(QUERY_PLAN_PROFILE@),
                    ),
                )
            } else {
                match (match lookup(m, "filter"@) {
                    Some(f) => filter_in(f),
                    None => Ok::<FilterView, ErrorView>(FilterView::Always),
                }) {
                    Err(e) => Err(e),
                    Ok(filter) => match (match lookup(m, "options"@) {
                        Some(o) => options_in(o),
                        None => Ok::<QueryOptionsView, ErrorView>(no_options()),
                    }) {
                        Err(e) => Err(e),
                        Ok(options) => Ok(QueryPlanView { profile, filter, options }),
                    },
                }
            },
        },
        _ => Err(ErrorView::QueryInvalid("query plan must be a JSON object"@)),
    }
}

fn count_value(n: u64) -> (r: Json)
    ensures
        r@ == count_json(n),
{
    Json::Number(JsonNumber::PosInt(n))
}

fn budget_to_map(b: &QueryBudget) -> (r: JsonMap)
    ensures
        r@ == budget_members(*b),
{
    let mut m = JsonMap::new();
    if let Some(n) = b.max_docs_scanned {
        m.insert("max_docs_scanned".to_string(), count_value(n as u64));
    }
    if let Some(n) = b.max_bytes_scanned {
        m.insert("max_bytes_scanned".to_string(), count_value(n));
    }
    if let Some(n) = b.max_result_bytes {
        m.insert("max_result_bytes".to_string(), count_value(n));
    }
    m
}

fn order_to_json(field: &str, order: SortOrder) -> (r: Json)
    ensures
        r@ == order_json(field@, order),
{
    let mut m = JsonMap::new();
    m.insert("field".to_string(), text_value(field));
    let name = match order {
        SortOrder::Asc => "asc",
        SortOrder::Desc => "desc",
    };
    m.insert("order".to_string(), text_value(name));
    Json::Object(m)
}

fn options_to_json(opts: &QueryOptions) -> (r: Json)
    ensures
        r@ == JsonView::Object(options_members(opts@)),
{
    let mut m = JsonMap::new();
    if let Some(n) = opts.limit {
        m.insert("limit".to_string(), count_value(n as u64));
    }
    if let Some(by) = &opts.order_by {
        m.insert("order_by".to_string(), order_to_json(by.0.as_str(), by.1));
    }
    if let Some(budget) = &opts.budget {
        let b = budget_to_map(budget);
        if !b.is_empty() {
            m.insert("budget".to_string(), Json::Object(b));
        }
    }
    if opts.force_scan {
        m.insert("force_scan".to_string(), Json::Bool(true));
    }
    if opts.allow_partial_coverage {
        m.insert("allow_partial_coverage".to_string(), Json::Bool(true));
    }
    Json::Object(m)
}

fn count_from(m: &JsonMap, key: &str, message: &str) -> (r: Result<Option<u64>, Error>)
    ensures
        match r {
            Ok(n) => count_in(m@, key@, message@) == Ok::<Option<u64>, ErrorView>(n),
            Err(e) => count_in(m@, key@, message@) == Err::<Option<u64>, ErrorView>(e@),
        },
{
    match m.get(key) {
        None => Ok(None),
        Some(v) => match v.as_u64() {
            Some(n) => Ok(Some(n)),
            None => Err(query_invalid(message)),
        },
    }
}

fn is_true(m: &JsonMap, key: &str) -> (r: bool)
    ensures
        r == (lookup(m@, key@) == Some(JsonView::Bool(true))),
{
    match m.get(key) {
        Some(Json::Bool(b)) => *b,
        _ => false,
    }
}

fn order_from(v: &Json) -> (r: Result<(String, SortOrder), Error>)
    ensures
        match r {
            Ok(by) => order_in(v@) == Ok::<(Seq<char>, SortOrder), ErrorView>((by.0@, by.1)),
            Err(e) => order_in(v@) == Err::<(Seq<char>, SortOrder), ErrorView>(e@),
        },
{
    match v {
        Json::Object(m) => match m.get("field") {
            Some(Json::Text(field)) => match m.get("order") {
                Some(Json::Text(name)) => {
                    if same_text(name.as_str(), "asc") {
                        Ok((field.clone(), SortOrder::Asc))
                    } else if same_text(name.as_str(), "desc") {
                        Ok((field.clone(), SortOrder::Desc))
                    } else {
                        Err(
                            Error::QueryInvalid(
                                cat2(
                                    "options.order_by.order unknown: ",
                                    debug_text(name.as_str()).as_str(),
                                ),
                            ),
                        )
                    }
                },
                _ => Ok((field.clone(), SortOrder::Asc)),
            },
            _ => Err(query_invalid("options.order_by.field required")),
        },
        _ => Err(query_invalid("options.order_by must be an object")),
    }
}

fn to_size(n: Option<u64>) -> (r: Option<usize>)
    ensures
        r == (match n {
            Some(n) => Some(n as usize),
            None => None,
        }),
{
    match n {
        Some(n) => Some(n as usize),
        None => None,
    }
}

fn budget_from(v: &Json) -> (r: Result<Option<QueryBudget>, Error>)
    ensures
        match r {
            Ok(b) => budget_in(v@) == Ok::<Option<QueryBudget>, ErrorView>(b),
            Err(e) => budget_in(v@) == Err::<Option<QueryBudget>, ErrorView>(e@),
        },
{
    match v {
        Json::Object(m) => {
            let docs = count_from(
                m,
                "max_docs_scanned",
                "budget.max_docs_scanned must be a number",
            )?;
            let bytes = count_from(
                m,
                "max_bytes_scanned",
                "budget.max_bytes_scanned must be a number",
            )?;
            let memory = count_from(
                m,
                "max_result_bytes",
                "budget.max_result_bytes must be a number",
            )?;
            if docs.is_none() && bytes.is_none() && memory.is_none() {
                Ok(None)
            } else {
                Ok(
                    Some(
                        QueryBudget {
                            max_docs_scanned: to_size(docs),
                            max_bytes_scanned: bytes,
                            max_result_bytes: memory,
                        },
                    ),
                )
            }
        },
        _ => Err(query_invalid("options.budget must be an object")),
    }
}

fn options_from_json(v: &Json) -> (r: Result<QueryOptions, Error>)
    ensures
        outcome(r) == options_in(v@),
{
    match v {
        Json::Object(m) => {
            let limit = count_from(m, "limit", "options.limit must be a number")?;
            let order_by = match m.get("order_by") {
                None => None,
                Some(by) => Some(order_from(by)?),
            };
            let budget = match m.get("budget") {
                None => None,
                Some(b) => budget_from(b)?,
            };
            Ok(
                QueryOptions {
                    limit: to_size(limit),
                    order_by,
                    budget,
                    force_scan: is_true(m, "force_scan"),
                    allow_partial_coverage: is_true(m, "allow_partial_coverage"),
                    cancel: None,
                },
            )
        },
        _ => Err(query_invalid("query plan options must be a JSON object")),
    }
}

impl QueryPlan {
    /// A plan under the current profile tag.
    pub fn new(filter: Filter, options: QueryOptions) -> (r: QueryPlan)
        ensures
            r@ == (QueryPlanView {
                profile: QUERY_PLAN_PROFILE@,
                filter: filter@,
                options: options@,
            }),
    {
        QueryPlan { profile: QUERY_PLAN_PROFILE.to_string(), filter, options }
    }

    /// Encodes the plan as JSON that [`QueryPlan::from_json`] parses.
    pub fn to_json(&self) -> (r: Json)
        ensures
            r@ == plan_json(self@),
    {
        let mut m = JsonMap::new();
        m.insert("profile".to_string(), text_value(self.profile.as_str()));
        m.insert("filter".to_string(), self.filter.to_json());
        m.insert("options".to_string(), options_to_json(&self.options));
        Json::Object(m)
    }

    /// Parses a plan object; an unknown or missing profile tag is refused.
    pub fn from_json(value: &Json) -> (r: Result<QueryPlan, Error>)
        ensures
            outcome(r) == plan_in(value@),
    {
        match value {
            Json::Object(m) => match m.get("profile") {
                Some(Json::Text(profile)) => {
                    if !same_text(profile.as_str(), QUERY_PLAN_PROFILE) {
                        return Err(
                            Error::QueryInvalid(
                                cat4(
                                    "unsupported query plan profile ",
                                    debug_text(profile.as_str()).as_str(),
                                    "; expected ",
                                    debug_text(QUERY_PLAN_PROFILE).as_str(),
                                ),
                            ),
                        );
                    }
                    let filter = match m.get("filter") {
                        Some(f) => Filter::from_json(f)?,
                        None => Filter::Always,
                    };
                    let options = match m.get("options") {
                        Some(o) => options_from_json(o)?,
                        None => QueryOptions::default(),
                    };
                    Ok(QueryPlan { profile: profile.clone(), filter, options })
                },
                _ => Err(query_invalid("query plan missing profile")),
            },
            _ => Err(query_invalid("query plan must be a JSON object")),
        }
    }

    /// Expression text of the embedded filter.
    pub fn to_sda(&self) -> (r: String)
        ensures
            r@ == filter_text(self@.filter),
    {
        self.filter.to_sda()
    }
}

impl Filter {
    /// A plan with default options.
    pub fn into_plan(self) -> (r: QueryPlan)
        ensures
            r@ == (QueryPlanView {
                profile: QUERY_PLAN_PROFILE@,
                filter: self@,
                options: no_options(),
            }),
    {
        QueryPlan::new(self, QueryOptions::default())
    }
}

/// Options as a plan keeps them: without cancellation, and with no budget in
/// place of one that limits nothing.
pub open spec fn kept_options(o: QueryOptionsView) -> QueryOptionsView {
    QueryOptionsView {
        budget: match o.budget {
            Some(b) => if b.max_docs_scanned is None && b.max_bytes_scanned is None
                && b.max_result_bytes is None {
                None
            } else {
                Some(b)
            },
            None => None,
        },
        cancel: None,
        ..o
    }
}

/// No two names of a plan's JSON shape are the same.
proof fn lemma_plan_names()
    ensures
        "limit"@ != "order_by"@,
        "limit"@ != "budget"@,
        "limit"@ != "force_scan"@,
        "limit"@ != "allow_partial_coverage"@,
        "order_by"@ != "budget"@,
        "order_by"@ != "force_scan"@,
        "order_by"@ != "allow_partial_coverage"@,
        "budget"@ != "force_scan"@,
        "budget"@ != "allow_partial_coverage"@,
        "force_scan"@ != "allow_partial_coverage"@,
        "max_docs_scanned"@ != "max_bytes_scanned"@,
        "max_docs_scanned"@ != "max_result_bytes"@,
        "max_bytes_scanned"@ != "max_result_bytes"@,
        "field"@ != "order"@,
        "asc"@ != "desc"@,
        "profile"@ != "filter"@,
        "profile"@ != "options"@,
        "filter"@ != "options"@,
{
    reveal_strlit("limit");
    reveal_strlit("order_by");
    reveal_strlit("budget");
    reveal_strlit("force_scan");
    reveal_strlit("allow_partial_coverage");
    reveal_strlit("max_docs_scanned");
    reveal_strlit("max_bytes_scanned");
    reveal_strlit("max_result_bytes");
    reveal_strlit("field");
    reveal_strlit("order");
    reveal_strlit("asc");
    reveal_strlit("desc");
    reveal_strlit("profile");
    reveal_strlit("filter");
    reveal_strlit("options");
    assert("limit"@.len() == 5);
    assert("order_by"@.len() == 8);
    assert("budget"@.len() == 6);
    assert("force_scan"@.len() == 10);
    assert("allow_partial_coverage"@.len() == 22);
    assert("max_docs_scanned"@[4] != "max_result_bytes"@[4]);
    assert("max_docs_scanned"@.len() == 16);
    assert("max_bytes_scanned"@.len() == 17);
    assert("max_result_bytes"@.len() == 16);
    assert("field"@[0] != "order"@[0]);
    assert("asc"@.len() == 3);
    assert("desc"@.len() == 4);
    assert("profile"@[0] != "options"@[0]);
    assert("profile"@.len() == 7);
    assert("filter"@.len() == 6);
    assert("options"@.len() == 7);
}

/// Setting a member leaves no object empty.
proof fn lemma_with_member_nonempty(
    m: Seq<(Seq<char>, JsonView)>,
    key: Seq<char>,
    value: JsonView,
)
    ensures
        with_member(m, key, value).len() > 0,
{
}

/// Options written as JSON read back as a plan keeps them.
pub proof fn law_options_round_trip(o: QueryOptionsView)
    ensures
        options_in(JsonView::Object(options_members(o))) == Ok::<QueryOptionsView, ErrorView>(
            kept_options(o),
        ),
{
    broadcast use law_lookup_with_member;

    lemma_plan_names();
    if let Some(b) = o.budget {
        let docs = match b.max_docs_scanned {
            Some(n) => Some(n as u64),
            None => None,
        };
        let m1 = with_count(Seq::empty(), "max_docs_scanned"@, docs);
        let m2 = with_count(m1, "max_bytes_scanned"@, b.max_bytes_scanned);
        let m3 = with_count(m2, "max_result_bytes"@, b.max_result_bytes);
        assert(budget_members(b) == m3);
        assert(lookup(m3, "max_docs_scanned"@) == (match docs {
            Some(n) => Some(count_json(n)),
            None => None,
        }));
        if docs is Some {
            lemma_with_member_nonempty(Seq::empty(), "max_docs_scanned"@, count_json(docs->0));
        }
        if b.max_bytes_scanned is Some {
            lemma_with_member_nonempty(
                m1,
                "max_bytes_scanned"@,
                count_json(b.max_bytes_scanned->0),
            );
        }
        if b.max_result_bytes is Some {
            lemma_with_member_nonempty(m2, "max_result_bytes"@, count_json(b.max_result_bytes->0));
        }
        if m3.len() == 0 {
            assert(docs is None && b.max_bytes_scanned is None && b.max_result_bytes is None) by {
                lemma_count_grows(m1, "max_bytes_scanned"@, b.max_bytes_scanned);
                lemma_count_grows(m2, "max_result_bytes"@, b.max_result_bytes);
            }
        } else {
            assert(budget_in(JsonView::Object(m3)) == Ok::<Option<QueryBudget>, ErrorView>(
                kept_options(o).budget,
            ));
        }
    }
    let back = options_in(JsonView::Object(options_members(o)));
    assert(back is Ok);
    assert(back->Ok_0 =~= kept_options(o));
}

/// Setting a count never shrinks an object.
proof fn lemma_count_grows(m: Seq<(Seq<char>, JsonView)>, key: Seq<char>, n: Option<u64>)
    ensures
        m.len() > 0 ==> with_count(m, key, n).len() > 0,
        n is Some ==> with_count(m, key, n).len() > 0,
{
}

/// A plan under the current profile, encoded as JSON, parses back to a plan
/// with the options it keeps and a filter that matches the same documents.
pub proof fn law_plan_round_trip(p: QueryPlanView)
    requires
        p.profile == QUERY_PLAN_PROFILE@,
        encodable(p.filter),
    ensures
        plan_in(plan_json(p)) is Ok,
        plan_in(plan_json(p))->Ok_0.profile == p.profile,
        plan_in(plan_json(p))->Ok_0.options == kept_options(p.options),
        same_meaning(p.filter, plan_in(plan_json(p))->Ok_0.filter),
{
    broadcast use law_lookup_with_member;

    lemma_plan_names();
    law_options_round_trip(p.options);
    crate::filter::law_filter_json_round_trip(p.filter);
}

/// Fluent query builder: clauses are taken together.
#[derive(Debug)]
pub struct QueryBuilder {
    filters: Vec<Filter>,
    options: QueryOptions,
}

impl QueryBuilder {
    /// The clauses so far.
    pub closed spec fn clauses(&self) -> Seq<FilterView> {
        filter_models(self.filters@)
    }

    /// The options so far.
    pub closed spec fn settings(&self) -> QueryOptionsView {
        self.options@
    }

    /// No clauses, default options.
    pub fn new() -> (r: QueryBuilder)
        ensures
            r.clauses() == Seq::<FilterView>::empty(),
            r.settings() == no_options(),
    {
        let r = QueryBuilder { filters: Vec::new(), options: QueryOptions::default() };
        proof {
            assert(r.clauses() =~= Seq::<FilterView>::empty());
        }
        r
    }

    /// Adds an arbitrary filter.
    pub fn filter(self, f: Filter) -> (r: QueryBuilder)
        ensures
            r.clauses() == self.clauses().push(f@),
            r.settings() == self.settings(),
    {
        let mut filters = self.filters;
        filters.push(f);
        let r = QueryBuilder { filters, options: self.options };
        proof {
            assert(r.clauses() =~= self.clauses().push(f@));
        }
        r
    }

    /// `field == value`.
    pub fn where_eq(self, field: &str, value: Json) -> (r: QueryBuilder)
        ensures
            r.clauses() == self.clauses().push(
                FilterView::Field { path: field@, pred: PredView::Eq(value@) },
            ),
            r.settings() == self.settings(),
    {
        self.filter(Filter::field(field).eq(value))
    }

    /// `field != value`.
    pub fn where_ne(self, field: &str, value: Json) -> (r: QueryBuilder)
        ensures
            r.clauses() == self.clauses().push(
                FilterView::Field { path: field@, pred: PredView::Ne(value@) },
            ),
            r.settings() == self.settings(),
    {
        self.filter(Filter::field(field).ne(value))
    }

    /// `field < value`.
    pub fn where_lt(self, field: &str, value: Json) -> (r: QueryBuilder)
        ensures
            r.clauses() == self.clauses().push(
                FilterView::Field { path: field@, pred: PredView::Lt(value@) },
            ),
            r.settings() == self.settings(),
    {
        self.filter(Filter::field(field).lt(value))
    }

    /// `field <= value`.
    pub fn where_lte(self, field: &str, value: Json) -> (r: QueryBuilder)
        ensures
            r.clauses() == self.clauses().push(
                FilterView::Field { path: field@, pred: PredView::Lte(value@) },
            ),
            r.settings() == self.settings(),
    {
        self.filter(Filter::field(field).lte(value))
    }

    /// `field > value`.
    pub fn where_gt(self, field: &str, value: Json) -> (r: QueryBuilder)
        ensures
            r.clauses() == self.clauses().push(
                FilterView::Field { path: field@, pred: PredView::Gt(value@) },
            ),
            r.settings() == self.settings(),
    {
        self.filter(Filter::field(field).gt(value))
    }

    /// `field >= value`.
    pub fn where_gte(self, field: &str, value: Json) -> (r: QueryBuilder)
        ensures
            r.clauses() == self.clauses().push(
                FilterView::Field { path: field@, pred: PredView::Gte(value@) },
            ),
            r.settings() == self.settings(),
    {
        self.filter(Filter::field(field).gte(value))
    }

    /// `field` in `values`.
    pub fn where_in(self, field: &str, values: Vec<Json>) -> (r: QueryBuilder)
        ensures
            r.clauses() == self.clauses().push(
                FilterView::Field { path: field@, pred: PredView::In(models(values@)) },
            ),
            r.settings() == self.settings(),
    {
        self.filter(Filter::field(field).is_in(values))
    }

    /// Field presence.
    pub fn where_exists(self, field: &str, present: bool) -> (r: QueryBuilder)
        ensures
            r.clauses() == self.clauses().push(
                FilterView::Field { path: field@, pred: PredView::Exists(present) },
            ),
            r.settings() == self.settings(),
    {
        self.filter(Filter::field(field).presence(present))
    }

    /// String prefix.
    pub fn where_prefix(self, field: &str, prefix: &str) -> (r: QueryBuilder)
        ensures
            r.clauses() == self.clauses().push(
                FilterView::Field { path: field@, pred: PredView::Prefix(prefix@) },
            ),
            r.settings() == self.settings(),
    {
        self.filter(Filter::field(field).prefix(prefix))
    }

    /// Caps the result size.
    pub fn limit(self, n: usize) -> (r: QueryBuilder)
        ensures
            r.clauses() == self.clauses(),
            r.settings() == (QueryOptionsView { limit: Some(n), ..self.settings() }),
    {
        QueryBuilder { filters: self.filters, options: self.options.limit(n) }
    }

    /// Orders by a field path.
    pub fn order_by(self, field: &str, order: SortOrder) -> (r: QueryBuilder)
        ensures
            r.clauses() == self.clauses(),
            r.settings() == (QueryOptionsView {
                order_by: Some((field@, order)),
                ..self.settings()
            }),
    {
        QueryBuilder { filters: self.filters, options: self.options.order_by(field, order) }
    }

    /// Attaches a budget.
    pub fn budget(self, budget: QueryBudget) -> (r: QueryBuilder)
        ensures
            r.clauses() == self.clauses(),
            r.settings() == (QueryOptionsView { budget: Some(budget), ..self.settings() }),
    {
        QueryBuilder { filters: self.filters, options: self.options.budget(budget) }
    }

    /// Attaches a cancellation token.
    pub fn cancel(self, token: CancelToken) -> (r: QueryBuilder)
        ensures
            r.clauses() == self.clauses(),
            r.settings() == (QueryOptionsView { cancel: Some(token), ..self.settings() }),
    {
        QueryBuilder { filters: self.filters, options: self.options.cancel(token) }
    }

    /// The plan of what was built.
    pub fn plan(self) -> (r: QueryPlan)
        ensures
            r@ == (QueryPlanView {
                profile: QUERY_PLAN_PROFILE@,
                filter: conjunction(self.clauses()),
                options: self.settings(),
            }),
    {
        QueryPlan::new(Filter::and(self.filters), self.options)
    }
}

} // verus!
