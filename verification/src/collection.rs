//! Reads of a named collection: pages, finds and the rules that end them.
//!
//! The store is asked by the caller. Subjects and bodies arrive decoded; the
//! functions here decide what a page holds, when a budget ends a find, and in
//! which order the rows come out.
use crate::covered_reads::queue_of;
use crate::error::{outcome, Error, ErrorView};
use crate::filter::{
    compare_field, field_order, field_value, filter_matches, Filter, QueryBudget, QueryOptions,
    QueryOptionsView, SortOrder,
};
use crate::json::{Json, JsonView};
use crate::json_text::exact_integer;
use crate::sorting::{placed, sort, sorted, Sorter};
use crate::text::{
    cat2, cat3, cat4, compare_text, decimal, decimal_text, lemma_text_order_chain,
    lemma_text_order_equal, lemma_text_order_flip, lemma_text_order_transitive, same_text,
    text_order, texts, Order,
};
use std::collections::VecDeque;
use vstd::prelude::*;

verus! {

/// A document with its key.
pub type Row = (String, Json);

/// The models of rows.
pub open spec fn row_models(v: Seq<(String, Json)>) -> Seq<(Seq<char>, JsonView)> {
    v.map_values(|r: (String, Json)| (r.0@, r.1@))
}

/// The words of a budget that was exceeded.
pub open spec fn budget_detail(
    budget: QueryBudget,
    scanned: usize,
    bytes_scanned: u64,
) -> Seq<char> {
    let docs_hit = budget.max_docs_scanned is Some && scanned > budget.max_docs_scanned->0;
    let bytes_hit = budget.max_bytes_scanned is Some && bytes_scanned > budget.max_bytes_scanned->0;
    if docs_hit && bytes_hit {
        "docs>"@ + decimal(budget.max_docs_scanned->0 as nat) + " and bytes>"@ + decimal(
            budget.max_bytes_scanned->0 as nat,
        )
    } else if docs_hit {
        "docs examined "@ + decimal(scanned as nat) + " > "@ + decimal(
            budget.max_docs_scanned->0 as nat,
        )
    } else {
        "bytes examined "@ + decimal(bytes_scanned as nat) + " > "@ + decimal(
            budget.max_bytes_scanned->0 as nat,
        )
    }
}

/// More was examined than the budget allows.
pub open spec fn over_budget(
    options: QueryOptionsView,
    scanned: usize,
    bytes_scanned: u64,
) -> bool {
    match options.budget {
        None => false,
        Some(b) => (b.max_docs_scanned is Some && scanned > b.max_docs_scanned->0) || (
        b.max_bytes_scanned is Some && bytes_scanned > b.max_bytes_scanned->0),
    }
}

/// Whether a budget ends a find: `true` where it does and what was found so
/// far is the result; an error where partial results were not allowed.
pub open spec fn budget_outcome(
    options: QueryOptionsView,
    scanned: usize,
    bytes_scanned: u64,
    context: Seq<char>,
) -> Result<bool, ErrorView> {
    if !over_budget(options, scanned, bytes_scanned) {
        Ok(false)
    } else if options.allow_partial_coverage {
        Ok(true)
    } else {
        Err(
            ErrorView::QueryBudgetRequired(
                context + " ("@ + budget_detail(options.budget->0, scanned, bytes_scanned) + ")"@,
            ),
        )
    }
}

/// Decides whether a budget ends a find.
pub fn budget_stop(
    options: &QueryOptions,
    scanned: usize,
    bytes_scanned: u64,
    context: &str,
) -> (r: Result<bool, Error>)
    ensures
        match r {
            Ok(b) => budget_outcome(options@, scanned, bytes_scanned, context@) == Ok::<
                bool,
                ErrorView,
            >(b),
            Err(e) => budget_outcome(options@, scanned, bytes_scanned, context@) == Err::<
                bool,
                ErrorView,
            >(e@),
        },
{
    let budget = match options.budget {
        Some(b) => b,
        None => {
            return Ok(false);
        },
    };
    let docs_hit = match budget.max_docs_scanned {
        Some(max) => scanned > max,
        None => false,
    };
    let bytes_hit = match budget.max_bytes_scanned {
        Some(max) => bytes_scanned > max,
        None => false,
    };
    if !docs_hit && !bytes_hit {
        return Ok(false);
    }
    if options.allow_partial_coverage {
        return Ok(true);
    }
    let max_docs: u64 = match budget.max_docs_scanned {
        Some(n) => n as u64,
        None => 0,
    };
    let max_bytes: u64 = match budget.max_bytes_scanned {
        Some(n) => n,
        None => 0,
    };
    let detail = if docs_hit && bytes_hit {
        cat4(
            "docs>",
            decimal_text(max_docs).as_str(),
            " and bytes>",
            decimal_text(max_bytes).as_str(),
        )
    } else if docs_hit {
        cat4(
            "docs examined ",
            decimal_text(scanned as u64).as_str(),
            " > ",
            decimal_text(max_docs).as_str(),
        )
    } else {
        cat4(
            "bytes examined ",
            decimal_text(bytes_scanned).as_str(),
            " > ",
            decimal_text(max_bytes).as_str(),
        )
    };
    Err(Error::QueryBudgetRequired(cat4(context, " (", detail.as_str(), ")")))
}

/// The order in which a find gives its rows.
pub struct RowOrder {
    /// Field and direction; by key where there is none.
    pub by: Option<(String, SortOrder)>,
}

/// How two rows stand to each other: by the field, and by key where the field
/// does not decide.
pub open spec fn rows_order(
    by: Option<(Seq<char>, SortOrder)>,
    a: (Seq<char>, JsonView),
    b: (Seq<char>, JsonView),
) -> Order {
    match by {
        Some((field, order)) => {
            let c = field_order(a.1, b.1, field, order);
            if c == Order::Equal {
                text_order(a.0, b.0)
            } else {
                c
            }
        },
        None => text_order(a.0, b.0),
    }
}

impl Sorter for RowOrder {
    type Item = (String, Json);

    open spec fn order_of(self, a: (String, Json), b: (String, Json)) -> Order {
        rows_order(
            match self.by {
                Some(o) => Some((o.0@, o.1)),
                None => None,
            },
            (a.0@, a.1@),
            (b.0@, b.1@),
        )
    }

    fn order(&self, a: &(String, Json), b: &(String, Json)) -> (r: Order) {
        match &self.by {
            Some(o) => {
                let c = compare_field(&a.1, &b.1, o.0.as_str(), o.1);
                if c == Order::Equal {
                    compare_text(a.0.as_str(), b.0.as_str())
                } else {
                    c
                }
            },
            None => compare_text(a.0.as_str(), b.0.as_str()),
        }
    }
}

/// Most bytes that the rows of a find may take, and the words it is refused
/// with beyond that.
#[derive(Debug)]
pub struct ResultCap {
    /// The bound.
    pub max: u64,
    /// The words of the refusal.
    pub refusal: String,
}

/// Checks the size of a result.
pub fn check_result_bytes(bytes: u64, cap: &ResultCap) -> (r: Result<(), Error>)
    ensures
        match r {
            Ok(_) => bytes <= cap.max,
            Err(e) => bytes > cap.max && e@ == ErrorView::ResourceLimit(cap.refusal@),
        },
{
    if bytes > cap.max {
        Err(Error::ResourceLimit(cap.refusal.clone()))
    } else {
        Ok(())
    }
}

/// A counter with something added, at most its last value.
pub open spec fn plus(count: u64, n: u64) -> u64 {
    if count + n > u64::MAX {
        u64::MAX
    } else {
        (count + n) as u64
    }
}

/// A row placed into a list in order, behind rows that do not sort after it.
pub open spec fn row_placed(
    by: Option<(Seq<char>, SortOrder)>,
    list: Seq<(Seq<char>, JsonView)>,
    row: (Seq<char>, JsonView),
) -> Seq<(Seq<char>, JsonView)>
    decreases list.len(),
{
    if list.len() > 0 && rows_order(by, list.last(), row) == Order::Greater {
        row_placed(by, list.drop_last(), row).push(list.last())
    } else {
        list.push(row)
    }
}

/// Rows in order; rows that compare equal stay in the order they had.
pub open spec fn rows_sorted(
    by: Option<(Seq<char>, SortOrder)>,
    list: Seq<(Seq<char>, JsonView)>,
) -> Seq<(Seq<char>, JsonView)>
    decreases list.len(),
{
    if list.len() == 0 {
        list
    } else {
        row_placed(by, rows_sorted(by, list.drop_last()), list.last())
    }
}

/// The first rows, up to a limit.
pub open spec fn rows_limited(rows: Seq<(Seq<char>, JsonView)>, limit: Option<usize>) -> Seq<
    (Seq<char>, JsonView),
> {
    match limit {
        Some(n) => if rows.len() > n {
            rows.take(n as int)
        } else {
            rows
        },
        None => rows,
    }
}

/// The order that options ask for.
pub open spec fn order_view(by: Option<(String, SortOrder)>) -> Option<(Seq<char>, SortOrder)> {
    match by {
        Some(o) => Some((o.0@, o.1)),
        None => None,
    }
}

proof fn lemma_placed_model(order: RowOrder, list: Seq<(String, Json)>, row: (String, Json))
    ensures
        row_models(placed(order, list, row)) == row_placed(
            order_view(order.by),
            row_models(list),
            (row.0@, row.1@),
        ),
    decreases list.len(),
{
    let by = order_view(order.by);
    if list.len() > 0 {
        assert(row_models(list).drop_last() =~= row_models(list.drop_last()));
        assert(row_models(list).last() == (list.last().0@, list.last().1@));
        lemma_placed_model(order, list.drop_last(), row);
    }
    if list.len() > 0 && order.order_of(list.last(), row) == Order::Greater {
        let part = placed(order, list.drop_last(), row);
        assert(row_models(part.push(list.last())) =~= row_models(part).push(
            (list.last().0@, list.last().1@),
        ));
    } else {
        assert(row_models(list.push(row)) =~= row_models(list).push((row.0@, row.1@)));
    }
}

proof fn lemma_sorted_model(order: RowOrder, list: Seq<(String, Json)>)
    ensures
        row_models(sorted(order, list)) == rows_sorted(order_view(order.by), row_models(list)),
    decreases list.len(),
{
    if list.len() > 0 {
        lemma_sorted_model(order, list.drop_last());
        lemma_placed_model(order, sorted(order, list.drop_last()), list.last());
        assert(row_models(list).drop_last() =~= row_models(list.drop_last()));
    }
}

/// What a sort field holds in the rows that have it.
pub enum FieldKind {
    /// Texts.
    Texts,
    /// Integers that doubles hold without rounding.
    Integers,
    /// Truth values.
    TruthValues,
}

/// A row has no sort field, or one of a kind.
pub open spec fn of_kind(
    by: Option<(Seq<char>, SortOrder)>,
    kind: FieldKind,
    row: (Seq<char>, JsonView),
) -> bool {
    match by {
        None => true,
        Some((field, _)) => match field_value(row.1, field) {
            None => true,
            Some(v) => match kind {
                FieldKind::Texts => v is Text,
                FieldKind::Integers => v matches JsonView::Number(n) && exact_integer(n) is Some,
                FieldKind::TruthValues => v is Bool,
            },
        },
    }
}

/// No row sorts after one that follows it.
pub open spec fn rows_in_order(
    by: Option<(Seq<char>, SortOrder)>,
    rows: Seq<(Seq<char>, JsonView)>,
) -> bool {
    forall|i: int, j: int|
        0 <= i < j < rows.len() ==> rows_order(by, #[trigger] rows[i], #[trigger] rows[j])
            != Order::Greater
}

proof fn lemma_rows_flip(
    by: Option<(Seq<char>, SortOrder)>,
    kind: FieldKind,
    a: (Seq<char>, JsonView),
    b: (Seq<char>, JsonView),
)
    requires
        of_kind(by, kind, a),
        of_kind(by, kind, b),
    ensures
        rows_order(by, b, a) == rows_order(by, a, b).flip(),
{
    lemma_text_order_flip(a.0, b.0);
    if let Some((field, order)) = by {
        match (field_value(a.1, field), field_value(b.1, field)) {
            (Some(JsonView::Text(x)), Some(JsonView::Text(y))) => lemma_text_order_flip(x, y),
            _ => {},
        }
    }
}

proof fn lemma_rows_chain(
    by: Option<(Seq<char>, SortOrder)>,
    kind: FieldKind,
    a: (Seq<char>, JsonView),
    b: (Seq<char>, JsonView),
    c: (Seq<char>, JsonView),
)
    requires
        of_kind(by, kind, a),
        of_kind(by, kind, b),
        of_kind(by, kind, c),
        rows_order(by, a, b) != Order::Greater,
        rows_order(by, b, c) != Order::Greater,
    ensures
        rows_order(by, a, c) != Order::Greater,
{
    if text_order(a.0, b.0) != Order::Greater && text_order(b.0, c.0) != Order::Greater {
        lemma_text_order_chain(a.0, b.0, c.0);
    }
    if let Some((field, order)) = by {
        match (field_value(a.1, field), field_value(b.1, field), field_value(c.1, field)) {
            (Some(JsonView::Text(x)), Some(JsonView::Text(y)), Some(JsonView::Text(z))) => {
                lemma_text_order_equal(x, y);
                lemma_text_order_equal(y, z);
                lemma_text_order_equal(x, z);
                lemma_text_order_flip(x, y);
                lemma_text_order_flip(y, z);
                lemma_text_order_flip(x, z);
                if text_order(x, y) == Order::Less && text_order(y, z) == Order::Less {
                    lemma_text_order_transitive(x, y, z);
                }
                if text_order(z, y) == Order::Less && text_order(y, x) == Order::Less {
                    lemma_text_order_transitive(z, y, x);
                }
            },
            _ => {},
        }
    }
}

proof fn lemma_row_placed(
    by: Option<(Seq<char>, SortOrder)>,
    kind: FieldKind,
    list: Seq<(Seq<char>, JsonView)>,
    row: (Seq<char>, JsonView),
)
    requires
        of_kind(by, kind, row),
        forall|i: int| 0 <= i < list.len() ==> of_kind(by, kind, #[trigger] list[i]),
        rows_in_order(by, list),
    ensures
        rows_in_order(by, row_placed(by, list, row)),
        row_placed(by, list, row).len() == list.len() + 1,
        forall|i: int|
            0 <= i <= list.len() ==> (#[trigger] row_placed(by, list, row)[i] == row
                || list.contains(row_placed(by, list, row)[i])),
        forall|i: int|
            0 <= i <= list.len() ==> of_kind(by, kind, #[trigger] row_placed(by, list, row)[i]),
    decreases list.len(),
{
    let all = row_placed(by, list, row);
    if list.len() > 0 && rows_order(by, list.last(), row) == Order::Greater {
        let head = list.drop_last();
        let part = row_placed(by, head, row);
        assert forall|i: int| 0 <= i < head.len() implies of_kind(by, kind, #[trigger] head[i]) by {
            assert(of_kind(by, kind, list[i]));
        }
        assert(rows_in_order(by, head)) by {
            assert forall|i: int, j: int| 0 <= i < j < head.len() implies rows_order(
                by,
                #[trigger] head[i],
                #[trigger] head[j],
            ) != Order::Greater by {
                assert(rows_order(by, list[i], list[j]) != Order::Greater);
            }
        }
        lemma_row_placed(by, kind, head, row);
        lemma_rows_flip(by, kind, list[list.len() - 1], row);
        assert forall|i: int| 0 <= i <= list.len() implies (#[trigger] all[i] == row
            || list.contains(all[i])) && of_kind(by, kind, all[i]) by {
            if i < part.len() {
                assert(all[i] == part[i]);
                if part[i] != row {
                    let w = choose|w: int| 0 <= w < head.len() && head[w] == part[i];
                    assert(list[w] == all[i]);
                }
            } else {
                assert(list[list.len() - 1] == all[i]);
            }
        }
        assert forall|i: int, j: int| 0 <= i < j < all.len() implies rows_order(
            by,
            #[trigger] all[i],
            #[trigger] all[j],
        ) != Order::Greater by {
            assert(all[i] == part[i]);
            if j == part.len() {
                if part[i] != row {
                    let w = choose|w: int| 0 <= w < head.len() && head[w] == part[i];
                    assert(list[w] == part[i]);
                    assert(rows_order(by, list[w], list[list.len() - 1]) != Order::Greater);
                }
            } else {
                assert(all[j] == part[j]);
            }
        }
    } else {
        assert forall|i: int| 0 <= i <= list.len() implies (#[trigger] all[i] == row
            || list.contains(all[i])) && of_kind(by, kind, all[i]) by {
            if i < list.len() {
                assert(list[i] == all[i]);
            }
        }
        assert forall|i: int, j: int| 0 <= i < j < all.len() implies rows_order(
            by,
            #[trigger] all[i],
            #[trigger] all[j],
        ) != Order::Greater by {
            assert(all[i] == list[i]);
            if j < list.len() {
                assert(all[j] == list[j]);
            } else if i + 1 < list.len() {
                let last = list[list.len() - 1];
                assert(rows_order(by, list[i], last) != Order::Greater);
                lemma_rows_chain(by, kind, list[i], last, row);
            }
        }
    }
}

proof fn lemma_rows_sorted(
    by: Option<(Seq<char>, SortOrder)>,
    kind: FieldKind,
    list: Seq<(Seq<char>, JsonView)>,
)
    requires
        forall|i: int| 0 <= i < list.len() ==> of_kind(by, kind, #[trigger] list[i]),
    ensures
        rows_in_order(by, rows_sorted(by, list)),
        rows_sorted(by, list).len() == list.len(),
        forall|i: int|
            0 <= i < list.len() ==> of_kind(by, kind, #[trigger] rows_sorted(by, list)[i]),
    decreases list.len(),
{
    if list.len() > 0 {
        let head = list.drop_last();
        assert forall|i: int| 0 <= i < head.len() implies of_kind(by, kind, #[trigger] head[i]) by {
            assert(of_kind(by, kind, list[i]));
        }
        lemma_rows_sorted(by, kind, head);
        assert(of_kind(by, kind, list[list.len() - 1]));
        lemma_row_placed(by, kind, rows_sorted(by, head), list.last());
    }
}

/// Where no field is asked for, the rows of a find ascend by key.
pub proof fn law_rows_in_key_order(
    rows: Seq<(Seq<char>, JsonView)>,
    bytes: u64,
    options: QueryOptionsView,
    cap: ResultCap,
    token: Result<(), ErrorView>,
)
    requires
        options.order_by is None,
        finished(rows, bytes, options, cap, token) is Ok,
    ensures
        ({
            let out = finished(rows, bytes, options, cap, token)->Ok_0;
            forall|i: int, j: int|
                0 <= i < j < out.len() ==> text_order((#[trigger] out[i]).0, (#[trigger] out[j]).0)
                    != Order::Greater
        }),
{
    let all = rows_sorted(options.order_by, rows);
    lemma_rows_sorted(options.order_by, FieldKind::Texts, rows);
    let out = finished(rows, bytes, options, cap, token)->Ok_0;
    assert forall|i: int, j: int| 0 <= i < j < out.len() implies text_order(
        (#[trigger] out[i]).0,
        (#[trigger] out[j]).0,
    ) != Order::Greater by {
        assert(rows_order(None, all[i], all[j]) != Order::Greater);
    }
}

/// Where a field is asked for that holds texts, truth values, or integers that
/// doubles hold, the rows of a find come in the order of that field, and rows
/// that it does not tell apart ascend by key. Rows without the field come first,
/// or last where the order descends.
pub proof fn law_rows_in_field_order(
    rows: Seq<(Seq<char>, JsonView)>,
    bytes: u64,
    options: QueryOptionsView,
    cap: ResultCap,
    token: Result<(), ErrorView>,
    kind: FieldKind,
)
    requires
        options.order_by is Some,
        finished(rows, bytes, options, cap, token) is Ok,
        forall|i: int| 0 <= i < rows.len() ==> of_kind(options.order_by, kind, #[trigger] rows[i]),
    ensures
        ({
            let out = finished(rows, bytes, options, cap, token)->Ok_0;
            let (field, order) = options.order_by->0;
            forall|i: int, j: int|
                0 <= i < j < out.len() ==> {
                    let by_field = field_order(
                        (#[trigger] out[i]).1,
                        (#[trigger] out[j]).1,
                        field,
                        order,
                    );
                    ||| by_field == Order::Less
                    ||| by_field == Order::Equal && text_order(out[i].0, out[j].0)
                        != Order::Greater
                }
        }),
{
    let all = rows_sorted(options.order_by, rows);
    lemma_rows_sorted(options.order_by, kind, rows);
    let out = finished(rows, bytes, options, cap, token)->Ok_0;
    let (field, order) = options.order_by->0;
    assert forall|i: int, j: int| 0 <= i < j < out.len() implies {
        let by_field = field_order((#[trigger] out[i]).1, (#[trigger] out[j]).1, field, order);
        ||| by_field == Order::Less
        ||| by_field == Order::Equal && text_order(out[i].0, out[j].0) != Order::Greater
    } by {
        assert(rows_order(options.order_by, all[i], all[j]) != Order::Greater);
    }
}

proof fn lemma_row_placed_kept(
    by: Option<(Seq<char>, SortOrder)>,
    list: Seq<(Seq<char>, JsonView)>,
    row: (Seq<char>, JsonView),
)
    ensures
        row_placed(by, list, row).to_multiset() == list.to_multiset().insert(row),
    decreases list.len(),
{
    broadcast use vstd::seq_lib::group_to_multiset_ensures;

    if list.len() > 0 && rows_order(by, list.last(), row) == Order::Greater {
        let head = list.drop_last();
        lemma_row_placed_kept(by, head, row);
        assert(list =~= head.push(list.last()));
        assert(row_placed(by, list, row).to_multiset() =~= list.to_multiset().insert(row));
    } else {
        assert(list.push(row).to_multiset() =~= list.to_multiset().insert(row));
    }
}

/// Ordering the rows of a find loses none and adds none.
pub proof fn law_ordering_keeps_rows(
    by: Option<(Seq<char>, SortOrder)>,
    rows: Seq<(Seq<char>, JsonView)>,
)
    ensures
        rows_sorted(by, rows).to_multiset() == rows.to_multiset(),
    decreases rows.len(),
{
    broadcast use vstd::seq_lib::group_to_multiset_ensures;

    if rows.len() > 0 {
        law_ordering_keeps_rows(by, rows.drop_last());
        lemma_row_placed_kept(by, rows_sorted(by, rows.drop_last()), rows.last());
        assert(rows =~= rows.drop_last().push(rows.last()));
    }
}

/// Why a find is cancelled, where it is: it has a token, and the token says so.
pub open spec fn cancelled(options: QueryOptionsView, token: Result<(), ErrorView>) -> Option<
    ErrorView,
> {
    match (options.cancel, token) {
        (Some(_), Err(e)) => Some(e),
        _ => None,
    }
}

/// Ends a find that is cancelled. `token` is what a look at the token of the
/// options gave; it does not count where there is none.
pub fn check_cancel(options: &QueryOptions, token: Result<(), Error>) -> (r: Result<(), Error>)
    ensures
        match r {
            Ok(_) => cancelled(options@, outcome(token)) is None,
            Err(e) => cancelled(options@, outcome(token)) == Some(e@),
        },
{
    if options.cancel.is_some() {
        token
    } else {
        Ok(())
    }
}

/// The rows of a find, or why there are none: it is cancelled, or its rows are
/// too large.
pub open spec fn finished(
    rows: Seq<(Seq<char>, JsonView)>,
    bytes: u64,
    options: QueryOptionsView,
    cap: ResultCap,
    token: Result<(), ErrorView>,
) -> Result<Seq<(Seq<char>, JsonView)>, ErrorView> {
    match cancelled(options, token) {
        Some(e) => Err(e),
        None => if bytes > cap.max {
            Err(ErrorView::ResourceLimit(cap.refusal@))
        } else {
            Ok(rows_limited(rows_sorted(options.order_by, rows), options.limit))
        },
    }
}

/// Finishes a find: it is looked whether it is cancelled, the size is checked,
/// the rows are put in order and cut to the limit. `bytes` is the size of all
/// rows; `token` is what a look at the token of the options gave.
pub fn finish_query(
    rows: Vec<(String, Json)>,
    bytes: u64,
    options: &QueryOptions,
    cap: &ResultCap,
    token: Result<(), Error>,
) -> (r: Result<Vec<(String, Json)>, Error>)
    ensures
        match r {
            Err(e) => finished(row_models(rows@), bytes, options@, *cap, outcome(token)) == Err::<
                Seq<(Seq<char>, JsonView)>,
                ErrorView,
            >(e@),
            Ok(out) => finished(row_models(rows@), bytes, options@, *cap, outcome(token)) == Ok::<
                Seq<(Seq<char>, JsonView)>,
                ErrorView,
            >(row_models(out@)),
        },
{
    check_cancel(options, token)?;
    check_result_bytes(bytes, cap)?;
    let order = RowOrder {
        by: match &options.order_by {
            Some(o) => Some((o.0.clone(), o.1)),
            None => None,
        },
    };
    let all = sort(&order, rows);
    proof {
        lemma_sorted_model(order, rows@);
    }
    let ghost whole = all@;
    let mut out = all;
    if let Some(limit) = options.limit {
        while out.len() > limit
            invariant
                out@ =~= whole.take(out@.len() as int),
                out@.len() <= whole.len(),
                whole.len() > limit ==> out@.len() >= limit,
                whole.len() <= limit ==> out@ == whole,
            decreases out@.len(),
        {
            out.pop();
        }
        proof {
            assert(row_models(whole).len() == whole.len());
            if whole.len() > limit {
                assert(row_models(out@) =~= row_models(whole).take(limit as int));
            }
        }
    }
    Ok(out)
}

/// What a store page says of one live document: its subject taken apart, its
/// length and what it decodes to.
#[derive(Debug)]
pub struct LiveEntry {
    /// Whether the subject begins with the prefix that was asked for.
    pub in_prefix: bool,
    /// Collection and key of the subject, where it has them.
    pub subject: Option<(String, String)>,
    /// Encoded length.
    pub len: u64,
    /// The document, or why it does not decode.
    pub decoded: Result<Json, Error>,
}

/// Model of a [`LiveEntry`].
#[verifier::ext_equal]
pub struct LiveEntryView {
    pub in_prefix: bool,
    pub subject: Option<(Seq<char>, Seq<char>)>,
    pub len: u64,
    pub decoded: Result<JsonView, ErrorView>,
}

/// A subject by its model.
pub open spec fn subject_view(s: Option<(String, String)>) -> Option<(Seq<char>, Seq<char>)> {
    match s {
        Some(p) => Some((p.0@, p.1@)),
        None => None,
    }
}

impl View for LiveEntry {
    type V = LiveEntryView;

    open spec fn view(&self) -> LiveEntryView {
        LiveEntryView {
            in_prefix: self.in_prefix,
            subject: subject_view(self.subject),
            len: self.len,
            decoded: outcome(self.decoded),
        }
    }
}

/// The models of the entries of a page.
pub open spec fn live_views(v: Seq<LiveEntry>) -> Seq<LiveEntryView> {
    v.map_values(|e: LiveEntry| e@)
}

/// The key of an entry, where it belongs to the collection.
pub open spec fn key_in(
    in_prefix: bool,
    subject: Option<(Seq<char>, Seq<char>)>,
    collection: Seq<char>,
) -> Option<Seq<char>> {
    match subject {
        Some((c, k)) => if in_prefix && c == collection {
            Some(k)
        } else {
            None
        },
        None => None,
    }
}

fn own_key(in_prefix: bool, subject: Option<(String, String)>, collection: &str) -> (r: Option<
    String,
>)
    ensures
        match r {
            Some(k) => key_in(in_prefix, subject_view(subject), collection@) == Some(k@),
            None => key_in(in_prefix, subject_view(subject), collection@) is None,
        },
{
    match subject {
        Some(p) => if in_prefix && same_text(p.0.as_str(), collection) {
            Some(p.1)
        } else {
            None
        },
        None => None,
    }
}

/// One page of documents.
#[derive(Debug)]
pub struct JsonScanPage {
    /// Rows.
    pub rows: Vec<(String, Json)>,
    /// Where to go on.
    pub continuation: Option<Vec<u8>>,
    /// Whether there is no more.
    pub complete: bool,
    /// Subjects examined.
    pub examined: usize,
    /// Bytes examined.
    pub bytes_examined: u64,
}

/// A store page of live documents.
#[derive(Debug)]
pub struct LivePage {
    /// The documents.
    pub entries: Vec<LiveEntry>,
    /// How many live subjects could not be read.
    pub incomplete: usize,
    /// Where to go on.
    pub continuation: Option<Vec<u8>>,
    /// Whether there is more.
    pub has_more: bool,
    /// Subjects examined.
    pub examined: usize,
}

/// The rows of a page; a document of the collection that does not decode is an
/// error.
pub open spec fn page_rows(entries: Seq<LiveEntryView>, collection: Seq<char>) -> Result<
    Seq<(Seq<char>, JsonView)>,
    ErrorView,
>
    decreases entries.len(),
{
    if entries.len() == 0 {
        Ok(Seq::empty())
    } else {
        match page_rows(entries.drop_last(), collection) {
            Err(e) => Err(e),
            Ok(rows) => {
                let last = entries.last();
                match key_in(last.in_prefix, last.subject, collection) {
                    None => Ok(rows),
                    Some(key) => match last.decoded {
                        Ok(v) => Ok(rows.push((key, v))),
                        Err(e) => Err(e),
                    },
                }
            },
        }
    }
}

/// The bytes of a page: every entry counts.
pub open spec fn page_bytes(entries: Seq<LiveEntryView>) -> u64
    decreases entries.len(),
{
    if entries.len() == 0 {
        0
    } else {
        plus(page_bytes(entries.drop_last()), entries.last().len)
    }
}

proof fn lemma_page_refused(entries: Seq<LiveEntryView>, collection: Seq<char>, n: int)
    requires
        0 <= n <= entries.len(),
        page_rows(entries.take(n), collection) is Err,
    ensures
        page_rows(entries, collection) == page_rows(entries.take(n), collection),
    decreases entries.len(),
{
    if n < entries.len() {
        assert(entries.drop_last().take(n) =~= entries.take(n));
        lemma_page_refused(entries.drop_last(), collection, n);
    } else {
        assert(entries.take(n) =~= entries);
    }
}

/// The refusal of a page on which documents could not be read.
pub open spec fn incomplete_refusal(n: usize) -> ErrorView {
    ErrorView::CoverageIncomplete(
        decimal(n as nat)
            + " live subject(s) incomplete during paged scan; use scan_json_partial_page or store.scan_live_documents_page for partial maps"@,
    )
}

/// Makes a page of documents of a store page. Documents that could not be read
/// refuse the page.
pub fn scan_json_page_on_store(collection: &str, page: LivePage) -> (r: Result<JsonScanPage, Error>)
    ensures
        match r {
            Ok(out) => {
                &&& page.incomplete == 0
                &&& page_rows(live_views(page.entries@), collection@) == Ok::<
                    Seq<(Seq<char>, JsonView)>,
                    ErrorView,
                >(row_models(out.rows@))
                &&& out.bytes_examined == page_bytes(live_views(page.entries@))
                &&& out.continuation == page.continuation
                &&& out.complete == !page.has_more
                &&& out.examined == page.examined
            },
            Err(e) => if page.incomplete > 0 {
                e@ == incomplete_refusal(page.incomplete)
            } else {
                page_rows(live_views(page.entries@), collection@) == Err::<
                    Seq<(Seq<char>, JsonView)>,
                    ErrorView,
                >(e@)
            },
        },
{
    if page.incomplete > 0 {
        return Err(
            Error::CoverageIncomplete(
                cat2(
                    decimal_text(page.incomplete as u64).as_str(),
                    " live subject(s) incomplete during paged scan; use scan_json_partial_page or store.scan_live_documents_page for partial maps",
                ),
            ),
        );
    }
    let ghost all = live_views(page.entries@);
    let mut rest = queue_of(page.entries);
    let mut rows: Vec<(String, Json)> = Vec::new();
    let mut bytes_examined: u64 = 0;
    let ghost mut i: int = 0;
    proof {
        assert(all.take(0) =~= Seq::empty());
        assert(row_models(rows@) =~= Seq::empty());
    }
    while rest.len() > 0
        invariant
            all == live_views(page.entries@),
            page.incomplete == 0,
            0 <= i <= all.len(),
            rest@.len() == all.len() - i,
            forall|k: int| 0 <= k < rest@.len() ==> (#[trigger] rest@[k])@ == all[i + k],
            page_rows(all.take(i), collection@) == Ok::<Seq<(Seq<char>, JsonView)>, ErrorView>(
                row_models(rows@),
            ),
            bytes_examined == page_bytes(all.take(i)),
        decreases rest@.len(),
    {
        let ghost left = rest@;
        if let Some(entry) = rest.pop_front() {
            let ghost before = row_models(rows@);
            proof {
                assert(left[0] == entry);
                assert(entry@ == all[i]);
                assert(all.take(i + 1).drop_last() =~= all.take(i));
                assert(all.take(i + 1).last() == all[i]);
            }
            bytes_examined = bytes_examined.saturating_add(entry.len);
            match own_key(entry.in_prefix, entry.subject, collection) {
                None => {},
                Some(key) => match entry.decoded {
                    Ok(value) => {
                        rows.push((key, value));
                        proof {
                            assert(row_models(rows@) =~= before.push((key@, value@)));
                        }
                    },
                    Err(e) => {
                        proof {
                            lemma_page_refused(all, collection@, i + 1);
                        }
                        return Err(e);
                    },
                },
            }
            proof {
                i = i + 1;
            }
        }
    }
    proof {
        assert(all.take(all.len() as int) =~= all);
    }
    Ok(
        JsonScanPage {
            rows,
            continuation: page.continuation,
            complete: !page.has_more,
            examined: page.examined,
            bytes_examined,
        },
    )
}

/// A gap in what a page covers: its kind and its detail, as the store shows
/// them.
#[derive(Debug)]
pub struct CoverageGap {
    /// Kind.
    pub kind: String,
    /// Detail.
    pub detail: String,
}

/// How gaps are told to the caller.
pub open spec fn gap_texts(gaps: Seq<CoverageGap>) -> Seq<Seq<char>> {
    gaps.map_values(|g: CoverageGap| g.kind@ + ": "@ + g.detail@)
}

fn show_gaps(gaps: &Vec<CoverageGap>) -> (r: Vec<String>)
    ensures
        texts(r@) == gap_texts(gaps@),
{
    let mut out: Vec<String> = Vec::new();
    for i in 0..gaps.len()
        invariant
            out@.len() == i,
            forall|k: int| 0 <= k < i ==> (#[trigger] out@[k])@ == gap_texts(gaps@)[k],
    {
        out.push(cat3(gaps[i].kind.as_str(), ": ", gaps[i].detail.as_str()));
    }
    proof {
        assert(texts(out@) =~= gap_texts(gaps@));
    }
    out
}

/// One page of keys.
#[derive(Debug, PartialEq, Eq)]
pub struct KeyScanPage {
    /// Keys.
    pub keys: Vec<String>,
    /// Where to go on.
    pub continuation: Option<Vec<u8>>,
    /// Whether there is more.
    pub has_more: bool,
    /// Whether every key is known.
    pub coverage_complete: bool,
    /// What is missing.
    pub coverage_gaps: Vec<String>,
    /// Subjects examined.
    pub examined: usize,
}

/// A live subject of a page of keys.
#[derive(Debug)]
pub struct LiveKey {
    /// Whether the subject begins with the prefix that was asked for.
    pub in_prefix: bool,
    /// Collection and key of the subject, where it has them.
    pub subject: Option<(String, String)>,
}

/// A store page of live subjects.
#[derive(Debug)]
pub struct LiveKeyPage {
    /// The subjects.
    pub keys: Vec<LiveKey>,
    /// What is missing.
    pub coverage_gaps: Vec<CoverageGap>,
    /// Whether every key is known.
    pub coverage_complete: bool,
    /// Where to go on.
    pub continuation: Option<Vec<u8>>,
    /// Whether there is more.
    pub has_more: bool,
    /// Subjects examined.
    pub examined: usize,
}

/// The keys of the collection among live subjects.
pub open spec fn own_keys(subjects: Seq<LiveKey>, collection: Seq<char>) -> Seq<Seq<char>>
    decreases subjects.len(),
{
    if subjects.len() == 0 {
        Seq::empty()
    } else {
        let before = own_keys(subjects.drop_last(), collection);
        let last = subjects.last();
        match key_in(last.in_prefix, subject_view(last.subject), collection) {
            Some(k) => before.push(k),
            None => before,
        }
    }
}

/// Makes a page of keys of a store page.
pub fn scan_keys_page_on_store(collection: &str, page: LiveKeyPage) -> (r: KeyScanPage)
    ensures
        texts(r.keys@) == own_keys(page.keys@, collection@),
        texts(r.coverage_gaps@) == gap_texts(page.coverage_gaps@),
        r.continuation == page.continuation,
        r.has_more == page.has_more,
        r.coverage_complete == page.coverage_complete,
        r.examined == page.examined,
{
    let ghost all = page.keys@;
    let coverage_gaps = show_gaps(&page.coverage_gaps);
    let mut rest = queue_of(page.keys);
    let mut keys: Vec<String> = Vec::new();
    let ghost mut i: int = 0;
    proof {
        assert(all.take(0) =~= Seq::empty());
        assert(texts(keys@) =~= Seq::empty());
    }
    while rest.len() > 0
        invariant
            0 <= i <= all.len(),
            rest@ =~= all.skip(i),
            texts(keys@) == own_keys(all.take(i), collection@),
        decreases rest@.len(),
    {
        let ghost left = rest@;
        if let Some(subject) = rest.pop_front() {
            let ghost before = texts(keys@);
            proof {
                assert(left[0] == all[i]);
                assert(all.take(i + 1).drop_last() =~= all.take(i));
                assert(all.take(i + 1).last() == subject);
            }
            if let Some(k) = own_key(subject.in_prefix, subject.subject, collection) {
                keys.push(k);
                proof {
                    assert(texts(keys@) =~= before.push(k@));
                }
            }
            proof {
                i = i + 1;
            }
        }
    }
    proof {
        assert(all.take(all.len() as int) =~= all);
    }
    KeyScanPage {
        keys,
        continuation: page.continuation,
        has_more: page.has_more,
        coverage_complete: page.coverage_complete,
        coverage_gaps,
        examined: page.examined,
    }
}

/// What a listing of all keys does after a page.
#[derive(Debug)]
pub enum KeyScanStep {
    /// There are no more pages.
    Done,
    /// Go on from here.
    More(Option<Vec<u8>>),
}

/// Takes a page into a listing of all keys. The last page must cover every
/// key.
pub fn take_key_page(keys: &mut Vec<String>, page: KeyScanPage) -> (r: Result<KeyScanStep, Error>)
    ensures
        texts(final(keys)@) == texts(old(keys)@) + texts(page.keys@),
        match r {
            Ok(KeyScanStep::More(c)) => page.has_more && c == page.continuation,
            Ok(KeyScanStep::Done) => !page.has_more && page.coverage_complete,
            Err(e) => !page.has_more && !page.coverage_complete && e@
                == ErrorView::CoverageIncomplete(
                "key coverage incomplete after scan ("@ + decimal(page.coverage_gaps@.len())
                    + " gap(s)); use scan_keys_page for partial key lists"@,
            ),
        },
{
    let ghost start = texts(keys@);
    let ghost all = texts(page.keys@);
    let mut rest = queue_of(page.keys);
    let ghost mut i: int = 0;
    proof {
        assert(texts(keys@) =~= start + all.take(0));
    }
    while rest.len() > 0
        invariant
            all == texts(page.keys@),
            0 <= i <= all.len(),
            rest@ =~= page.keys@.skip(i),
            texts(keys@) == start + all.take(i),
        decreases rest@.len(),
    {
        let ghost left = rest@;
        let ghost before = texts(keys@);
        if let Some(k) = rest.pop_front() {
            proof {
                assert(left[0] == page.keys@[i]);
            }
            keys.push(k);
            proof {
                assert(texts(keys@) =~= before.push(k@));
                assert(all.take(i + 1) =~= all.take(i).push(all[i]));
                assert(texts(keys@) =~= start + all.take(i + 1));
                i = i + 1;
            }
        }
    }
    proof {
        assert(all.take(all.len() as int) =~= all);
    }
    if page.has_more {
        return Ok(KeyScanStep::More(page.continuation));
    }
    if !page.coverage_complete {
        return Err(
            Error::CoverageIncomplete(
                cat3(
                    "key coverage incomplete after scan (",
                    decimal_text(page.coverage_gaps.len() as u64).as_str(),
                    " gap(s)); use scan_keys_page for partial key lists",
                ),
            ),
        );
    }
    Ok(KeyScanStep::Done)
}

/// A document that is there only in part.
#[derive(Debug, PartialEq, Eq)]
pub struct IncompleteDocument {
    /// Key.
    pub key: String,
    /// How much of it there is.
    pub completeness: String,
    /// What is wrong.
    pub detail: String,
}

/// A document that does not decode.
#[derive(Debug, PartialEq, Eq)]
pub struct UndecodableDocument {
    /// Key.
    pub key: String,
    /// What kind of failure.
    pub error_class: String,
}

/// Model of an [`IncompleteDocument`].
#[verifier::ext_equal]
pub struct IncompleteView {
    pub key: Seq<char>,
    pub completeness: Seq<char>,
    pub detail: Seq<char>,
}

impl View for IncompleteDocument {
    type V = IncompleteView;

    open spec fn view(&self) -> IncompleteView {
        IncompleteView {
            key: self.key@,
            completeness: self.completeness@,
            detail: self.detail@,
        }
    }
}

impl View for UndecodableDocument {
    type V = (Seq<char>, Seq<char>);

    open spec fn view(&self) -> (Seq<char>, Seq<char>) {
        (self.key@, self.error_class@)
    }
}

/// Why a document could not be read whole.
#[derive(Debug, Clone, Copy, PartialEq, Eq, Structural)]
pub enum IncompleteReason {
    /// Part of the payload is missing.
    PayloadPartial,
    /// The payload is missing.
    PayloadUnavailable,
    /// Copies of the payload disagree.
    PayloadConflict,
    /// The subject is not text.
    NonUtf8Subject,
    /// A locator points nowhere.
    LocatorOffsetInvalid,
    /// A located frame does not verify.
    LocatorFrameVerifyFailed,
    /// A locator names another segment.
    LocatorSegmentIdMismatch,
    /// A segment is missing.
    SegmentNotFound,
}

impl IncompleteReason {
    /// How a reason is told to the caller.
    pub open spec fn words(self) -> (Seq<char>, Seq<char>) {
        match self {
            IncompleteReason::PayloadPartial => (
                "partial"@,
                "payload only partially available"@,
            ),
            IncompleteReason::PayloadUnavailable => (
                "unavailable"@,
                "payload chunks unavailable"@,
            ),
            IncompleteReason::PayloadConflict => ("conflicting"@, "conflicting chunk content"@),
            IncompleteReason::NonUtf8Subject => ("unavailable"@, "non-utf8 subject"@),
            IncompleteReason::LocatorOffsetInvalid => (
                "locator_offset_invalid"@,
                "locator frame offset invalid"@,
            ),
            IncompleteReason::LocatorFrameVerifyFailed => (
                "locator_frame_verify_failed"@,
                "locator frame verify failed"@,
            ),
            IncompleteReason::LocatorSegmentIdMismatch => (
                "locator_segment_id_mismatch"@,
                "locator segment id mismatch"@,
            ),
            IncompleteReason::SegmentNotFound => ("segment_not_found"@, "segment not found"@),
        }
    }

    fn say(self) -> (r: (&'static str, &'static str))
        ensures
            (r.0@, r.1@) == self.words(),
    {
        match self {
            IncompleteReason::PayloadPartial => ("partial", "payload only partially available"),
            IncompleteReason::PayloadUnavailable => ("unavailable", "payload chunks unavailable"),
            IncompleteReason::PayloadConflict => ("conflicting", "conflicting chunk content"),
            IncompleteReason::NonUtf8Subject => ("unavailable", "non-utf8 subject"),
            IncompleteReason::LocatorOffsetInvalid => (
                "locator_offset_invalid",
                "locator frame offset invalid",
            ),
            IncompleteReason::LocatorFrameVerifyFailed => (
                "locator_frame_verify_failed",
                "locator frame verify failed",
            ),
            IncompleteReason::LocatorSegmentIdMismatch => (
                "locator_segment_id_mismatch",
                "locator segment id mismatch",
            ),
            IncompleteReason::SegmentNotFound => ("segment_not_found", "segment not found"),
        }
    }
}

/// A live subject whose document could not be read whole.
#[derive(Debug)]
pub struct LiveIncomplete {
    /// Whether the subject begins with the prefix that was asked for.
    pub in_prefix: bool,
    /// Collection and key of the subject, where it has them.
    pub subject: Option<(String, String)>,
    /// Why.
    pub reason: IncompleteReason,
}

/// A store page of live documents with what could not be read.
#[derive(Debug)]
pub struct LiveDocumentPage {
    /// The documents.
    pub rows: Vec<LiveEntry>,
    /// What could not be read whole.
    pub incomplete: Vec<LiveIncomplete>,
    /// What is missing.
    pub coverage_gaps: Vec<CoverageGap>,
    /// Whether every key is known.
    pub key_coverage_complete: bool,
    /// Where to go on.
    pub continuation: Option<Vec<u8>>,
    /// Whether there is more.
    pub has_more: bool,
    /// Subjects examined.
    pub examined: usize,
}

/// One page of documents, with what could not be read.
#[derive(Debug)]
pub struct DocumentScanPage {
    /// Rows.
    pub rows: Vec<(String, Json)>,
    /// Documents that are there only in part.
    pub incomplete: Vec<IncompleteDocument>,
    /// Documents that do not decode.
    pub undecodable: Vec<UndecodableDocument>,
    /// Where to go on.
    pub continuation: Option<Vec<u8>>,
    /// Whether there is more.
    pub has_more: bool,
    /// Whether every key is known.
    pub key_coverage_complete: bool,
    /// What is missing.
    pub coverage_gaps: Vec<String>,
    /// Subjects examined.
    pub examined: usize,
    /// Bytes examined.
    pub bytes_examined: u64,
}

/// The documents of the collection that decode.
pub open spec fn decoded_rows(entries: Seq<LiveEntryView>, collection: Seq<char>) -> Seq<
    (Seq<char>, JsonView),
>
    decreases entries.len(),
{
    if entries.len() == 0 {
        Seq::empty()
    } else {
        let before = decoded_rows(entries.drop_last(), collection);
        let last = entries.last();
        match (key_in(last.in_prefix, last.subject, collection), last.decoded) {
            (Some(k), Ok(v)) => before.push((k, v)),
            _ => before,
        }
    }
}

/// What kind of failure a document that does not decode is.
pub open spec fn failure_class(e: ErrorView) -> Seq<char> {
    if e is TypeMismatch {
        "type_mismatch"@
    } else {
        "invalid_json"@
    }
}

/// The documents of the collection that do not decode.
pub open spec fn undecoded(entries: Seq<LiveEntryView>, collection: Seq<char>) -> Seq<
    (Seq<char>, Seq<char>),
>
    decreases entries.len(),
{
    if entries.len() == 0 {
        Seq::empty()
    } else {
        let before = undecoded(entries.drop_last(), collection);
        let last = entries.last();
        match (key_in(last.in_prefix, last.subject, collection), last.decoded) {
            (Some(k), Err(e)) => before.push((k, failure_class(e))),
            _ => before,
        }
    }
}

/// The bytes of the documents of the collection.
pub open spec fn own_bytes(entries: Seq<LiveEntryView>, collection: Seq<char>) -> u64
    decreases entries.len(),
{
    if entries.len() == 0 {
        0
    } else {
        let before = own_bytes(entries.drop_last(), collection);
        let last = entries.last();
        if key_in(last.in_prefix, last.subject, collection) is Some {
            plus(before, last.len)
        } else {
            before
        }
    }
}

/// The documents of the collection that could not be read whole.
pub open spec fn own_incomplete(items: Seq<LiveIncomplete>, collection: Seq<char>) -> Seq<
    IncompleteView,
>
    decreases items.len(),
{
    if items.len() == 0 {
        Seq::empty()
    } else {
        let before = own_incomplete(items.drop_last(), collection);
        let last = items.last();
        match key_in(last.in_prefix, subject_view(last.subject), collection) {
            Some(key) => before.push(
                IncompleteView {
                    key,
                    completeness: last.reason.words().0,
                    detail: last.reason.words().1,
                },
            ),
            None => before,
        }
    }
}

/// The models of documents that could not be read whole.
pub open spec fn incomplete_views(v: Seq<IncompleteDocument>) -> Seq<IncompleteView> {
    v.map_values(|d: IncompleteDocument| d@)
}

/// The models of documents that do not decode.
pub open spec fn undecodable_views(v: Seq<UndecodableDocument>) -> Seq<(Seq<char>, Seq<char>)> {
    v.map_values(|d: UndecodableDocument| d@)
}

fn read_incomplete(items: Vec<LiveIncomplete>, collection: &str) -> (r: Vec<IncompleteDocument>)
    ensures
        incomplete_views(r@) == own_incomplete(items@, collection@),
{
    let ghost all = items@;
    let mut rest = queue_of(items);
    let mut out: Vec<IncompleteDocument> = Vec::new();
    let ghost mut i: int = 0;
    proof {
        assert(all.take(0) =~= Seq::empty());
        assert(incomplete_views(out@) =~= Seq::empty());
    }
    while rest.len() > 0
        invariant
            0 <= i <= all.len(),
            rest@ =~= all.skip(i),
            incomplete_views(out@) == own_incomplete(all.take(i), collection@),
        decreases rest@.len(),
    {
        let ghost left = rest@;
        if let Some(item) = rest.pop_front() {
            let ghost before = incomplete_views(out@);
            proof {
                assert(left[0] == all[i]);
                assert(all.take(i + 1).drop_last() =~= all.take(i));
                assert(all.take(i + 1).last() == item);
            }
            if let Some(key) = own_key(item.in_prefix, item.subject, collection) {
                let words = item.reason.say();
                out.push(
                    IncompleteDocument {
                        key,
                        completeness: words.0.to_string(),
                        detail: words.1.to_string(),
                    },
                );
                proof {
                    assert(incomplete_views(out@) =~= before.push(out@[out@.len() - 1]@));
                }
            }
            proof {
                i = i + 1;
            }
        }
    }
    proof {
        assert(all.take(all.len() as int) =~= all);
    }
    out
}

/// Makes a page of documents, with what could not be read, of a store page.
pub fn scan_json_partial_page_on_store(collection: &str, page: LiveDocumentPage) -> (r: DocumentScanPage)
    ensures
        row_models(r.rows@) == decoded_rows(live_views(page.rows@), collection@),
        undecodable_views(r.undecodable@) == undecoded(live_views(page.rows@), collection@),
        incomplete_views(r.incomplete@) == own_incomplete(page.incomplete@, collection@),
        r.bytes_examined == own_bytes(live_views(page.rows@), collection@),
        texts(r.coverage_gaps@) == gap_texts(page.coverage_gaps@),
        r.continuation == page.continuation,
        r.has_more == page.has_more,
        r.key_coverage_complete == page.key_coverage_complete,
        r.examined == page.examined,
{
    let ghost all = live_views(page.rows@);
    let coverage_gaps = show_gaps(&page.coverage_gaps);
    let incomplete = read_incomplete(page.incomplete, collection);
    let mut rest = queue_of(page.rows);
    let mut rows: Vec<(String, Json)> = Vec::new();
    let mut undecodable: Vec<UndecodableDocument> = Vec::new();
    let mut bytes_examined: u64 = 0;
    let ghost mut i: int = 0;
    proof {
        assert(all.take(0) =~= Seq::empty());
        assert(row_models(rows@) =~= Seq::empty());
        assert(undecodable_views(undecodable@) =~= Seq::empty());
    }
    while rest.len() > 0
        invariant
            all == live_views(page.rows@),
            0 <= i <= all.len(),
            rest@.len() == all.len() - i,
            forall|k: int| 0 <= k < rest@.len() ==> (#[trigger] rest@[k])@ == all[i + k],
            row_models(rows@) == decoded_rows(all.take(i), collection@),
            undecodable_views(undecodable@) == undecoded(all.take(i), collection@),
            bytes_examined == own_bytes(all.take(i), collection@),
        decreases rest@.len(),
    {
        let ghost left = rest@;
        if let Some(entry) = rest.pop_front() {
            let ghost before = row_models(rows@);
            let ghost bad = undecodable_views(undecodable@);
            proof {
                assert(left[0] == entry);
                assert(entry@ == all[i]);
                assert(all.take(i + 1).drop_last() =~= all.take(i));
                assert(all.take(i + 1).last() == all[i]);
            }
            if let Some(key) = own_key(entry.in_prefix, entry.subject, collection) {
                bytes_examined = bytes_examined.saturating_add(entry.len);
                match entry.decoded {
                    Ok(value) => {
                        rows.push((key, value));
                        proof {
                            assert(row_models(rows@) =~= before.push((key@, value@)));
                        }
                    },
                    Err(e) => {
                        let class = match &e {
                            Error::TypeMismatch { .. } => "type_mismatch",
                            _ => "invalid_json",
                        };
                        undecodable.push(
                            UndecodableDocument { key, error_class: class.to_string() },
                        );
                        proof {
                            assert(undecodable_views(undecodable@) =~= bad.push(
                                undecodable@[undecodable@.len() - 1]@,
                            ));
                        }
                    },
                }
            }
            proof {
                i = i + 1;
            }
        }
    }
    proof {
        assert(all.take(all.len() as int) =~= all);
    }
    DocumentScanPage {
        rows,
        incomplete,
        undecodable,
        continuation: page.continuation,
        has_more: page.has_more,
        key_coverage_complete: page.key_coverage_complete,
        coverage_gaps,
        examined: page.examined,
        bytes_examined,
    }
}

/// A row with its size estimate.
#[derive(Debug)]
pub struct SizedRow {
    /// Key.
    pub key: String,
    /// Document.
    pub value: Json,
    /// Size estimate of the row.
    pub size: u64,
}

/// Model of a [`SizedRow`].
#[verifier::ext_equal]
pub struct SizedRowView {
    pub key: Seq<char>,
    pub value: JsonView,
    pub size: u64,
}

impl View for SizedRow {
    type V = SizedRowView;

    open spec fn view(&self) -> SizedRowView {
        SizedRowView { key: self.key@, value: self.value@, size: self.size }
    }
}

/// The models of sized rows.
pub open spec fn sized_views(v: Seq<SizedRow>) -> Seq<SizedRowView> {
    v.map_values(|r: SizedRow| r@)
}

/// A find in a store of this process.
#[derive(Debug)]
pub struct LocalFind {
    /// Matches so far.
    pub out: Vec<(String, Json)>,
    /// Documents examined.
    pub scanned: usize,
    /// Bytes examined.
    pub bytes_scanned: u64,
    /// Size of the matches.
    pub result_bytes: u64,
}

/// Model of a [`LocalFind`].
#[verifier::ext_equal]
pub struct LocalFindView {
    pub out: Seq<(Seq<char>, JsonView)>,
    pub scanned: usize,
    pub bytes_scanned: u64,
    pub result_bytes: u64,
}

impl View for LocalFind {
    type V = LocalFindView;

    open spec fn view(&self) -> LocalFindView {
        LocalFindView {
            out: row_models(self.out@),
            scanned: self.scanned,
            bytes_scanned: self.bytes_scanned,
            result_bytes: self.result_bytes,
        }
    }
}

/// A find after one more match, or the refusal of its size.
pub open spec fn kept(s: LocalFindView, row: SizedRowView, cap: ResultCap) -> Result<
    LocalFindView,
    ErrorView,
> {
    let bytes = plus(s.result_bytes, row.size);
    if bytes > cap.max {
        Err(ErrorView::ResourceLimit(cap.refusal@))
    } else {
        Ok(LocalFindView { out: s.out.push((row.key, row.value)), result_bytes: bytes, ..s })
    }
}

/// A find after more rows, of which it keeps the matches.
pub open spec fn matched(
    s: LocalFindView,
    filter: crate::filter::FilterView,
    rows: Seq<SizedRowView>,
    cap: ResultCap,
) -> Result<LocalFindView, ErrorView>
    decreases rows.len(),
{
    if rows.len() == 0 {
        Ok(s)
    } else {
        match matched(s, filter, rows.drop_last(), cap) {
            Err(e) => Err(e),
            Ok(t) => if filter_matches(filter, rows.last().value) {
                kept(t, rows.last(), cap)
            } else {
                Ok(t)
            },
        }
    }
}

proof fn lemma_matched_refused(
    s: LocalFindView,
    filter: crate::filter::FilterView,
    rows: Seq<SizedRowView>,
    cap: ResultCap,
    n: int,
)
    requires
        0 <= n <= rows.len(),
        matched(s, filter, rows.take(n), cap) is Err,
    ensures
        matched(s, filter, rows, cap) == matched(s, filter, rows.take(n), cap),
    decreases rows.len(),
{
    if n < rows.len() {
        assert(rows.drop_last().take(n) =~= rows.take(n));
        lemma_matched_refused(s, filter, rows.drop_last(), cap, n);
    } else {
        assert(rows.take(n) =~= rows);
    }
}

/// A count with something added, at most its last value.
pub open spec fn count_plus(count: usize, n: usize) -> usize {
    if count + n > usize::MAX {
        usize::MAX
    } else {
        (count + n) as usize
    }
}

/// What a find does next.
#[derive(Debug, Clone, Copy, PartialEq, Eq, Structural)]
pub enum FindStep {
    /// Go on.
    More,
    /// Finish with what was found.
    Finish,
}

/// Words of a budget that a scan exceeded.
pub const SCAN_BUDGET: &'static str =
    "scan examined more than budget without a usable index; raise budget or create an index";

/// Words of a budget that an index probe exceeded.
pub const PROBE_BUDGET: &'static str = "index probe exceeded document/byte budget";

impl LocalFind {
    /// A find at its beginning.
    pub fn start() -> (r: LocalFind)
        ensures
            r@ == (LocalFindView {
                out: Seq::empty(),
                scanned: 0,
                bytes_scanned: 0,
                result_bytes: 0,
            }),
    {
        let r = LocalFind { out: Vec::new(), scanned: 0, bytes_scanned: 0, result_bytes: 0 };
        proof {
            assert(r@.out =~= Seq::empty());
        }
        r
    }

    fn keep(&mut self, row: SizedRow, cap: &ResultCap) -> (r: Result<(), Error>)
        ensures
            match r {
                Ok(_) => kept(old(self)@, row@, *cap) == Ok::<LocalFindView, ErrorView>(
                    final(self)@,
                ),
                Err(e) => kept(old(self)@, row@, *cap) == Err::<LocalFindView, ErrorView>(e@),
            },
    {
        let ghost before = row_models(self.out@);
        self.result_bytes = self.result_bytes.saturating_add(row.size);
        check_result_bytes(self.result_bytes, cap)?;
        self.out.push((row.key, row.value));
        proof {
            assert(row_models(self.out@) =~= before.push((row.key@, row.value@)));
        }
        Ok(())
    }

    fn keep_matches(&mut self, filter: &Filter, rows: Vec<SizedRow>, cap: &ResultCap) -> (r: Result<
        (),
        Error,
    >)
        ensures
            match r {
                Ok(_) => matched(old(self)@, filter@, sized_views(rows@), *cap) == Ok::<
                    LocalFindView,
                    ErrorView,
                >(final(self)@),
                Err(e) => matched(old(self)@, filter@, sized_views(rows@), *cap) == Err::<
                    LocalFindView,
                    ErrorView,
                >(e@),
            },
    {
        let ghost start = self@;
        let ghost all = sized_views(rows@);
        let mut rest = queue_of(rows);
        let ghost mut i: int = 0;
        proof {
            assert(all.take(0) =~= Seq::empty());
        }
        while rest.len() > 0
            invariant
                start == old(self)@,
                all == sized_views(rows@),
                0 <= i <= all.len(),
                rest@.len() == all.len() - i,
                forall|k: int| 0 <= k < rest@.len() ==> (#[trigger] rest@[k])@ == all[i + k],
                matched(start, filter@, all.take(i), *cap) == Ok::<LocalFindView, ErrorView>(self@),
            decreases rest@.len(),
        {
            let ghost left = rest@;
            if let Some(row) = rest.pop_front() {
                proof {
                    assert(left[0] == row);
                    assert(row@ == all[i]);
                    assert(all.take(i + 1).drop_last() =~= all.take(i));
                    assert(all.take(i + 1).last() == all[i]);
                }
                if filter.matches(&row.value) {
                    match self.keep(row, cap) {
                        Ok(_) => {},
                        Err(e) => {
                            proof {
                                lemma_matched_refused(start, filter@, all, *cap, i + 1);
                            }
                            return Err(e);
                        },
                    }
                }
                proof {
                    i = i + 1;
                }
            }
        }
        proof {
            assert(all.take(all.len() as int) =~= all);
        }
        Ok(())
    }

    /// Takes a page of a scan: the counters go on, the budget is checked, the
    /// matches are kept. The find ends with the last page, and once it has as
    /// many matches as asked for where no order has to be made.
    pub fn take_page(
        &mut self,
        filter: &Filter,
        options: &QueryOptions,
        cap: &ResultCap,
        page: ScanPage,
    ) -> (r: Result<FindStep, Error>)
        ensures
            ({
                let counted = LocalFindView {
                    scanned: count_plus(old(self)@.scanned, page.examined),
                    bytes_scanned: plus(old(self)@.bytes_scanned, page.bytes_examined),
                    ..old(self)@
                };
                match budget_outcome(
                    options@,
                    counted.scanned,
                    counted.bytes_scanned,
                    SCAN_BUDGET@,
                ) {
                    Err(e) => r is Err && r->Err_0@ == e,
                    Ok(true) => r == Ok::<FindStep, Error>(FindStep::Finish) && final(self)@
                        == counted,
                    Ok(false) => match matched(counted, filter@, sized_views(page.rows@), *cap) {
                        Err(e) => r is Err && r->Err_0@ == e,
                        Ok(t) => final(self)@ == t && r == Ok::<FindStep, Error>(
                            if page.complete || !page.goes_on || (options@.limit is Some
                                && t.out.len() >= options@.limit->0 && options@.order_by is None) {
                                FindStep::Finish
                            } else {
                                FindStep::More
                            },
                        ),
                    },
                }
            }),
    {
        self.scanned = self.scanned.saturating_add(page.examined);
        self.bytes_scanned = self.bytes_scanned.saturating_add(page.bytes_examined);
        if budget_stop(options, self.scanned, self.bytes_scanned, SCAN_BUDGET)? {
            return Ok(FindStep::Finish);
        }
        self.keep_matches(filter, page.rows, cap)?;
        if page.complete || !page.goes_on {
            return Ok(FindStep::Finish);
        }
        proof {
            assert(self@.out.len() == self.out@.len());
        }
        if let Some(limit) = options.limit {
            if self.out.len() >= limit && options.order_by.is_none() {
                return Ok(FindStep::Finish);
            }
        }
        Ok(FindStep::More)
    }

    /// Begins the probe of the next document that an index names.
    pub fn probe(&mut self, options: &QueryOptions) -> (r: Result<FindStep, Error>)
        requires
            old(self).scanned < usize::MAX,
        ensures
            final(self)@ == (LocalFindView {
                scanned: (old(self)@.scanned + 1) as usize,
                ..old(self)@
            }),
            match budget_outcome(
                options@,
                (old(self)@.scanned + 1) as usize,
                old(self)@.bytes_scanned,
                PROBE_BUDGET@,
            ) {
                Err(e) => r is Err && r->Err_0@ == e,
                Ok(stop) => r == Ok::<FindStep, Error>(
                    if stop {
                        FindStep::Finish
                    } else {
                        FindStep::More
                    },
                ),
            },
    {
        self.scanned = self.scanned + 1;
        if budget_stop(options, self.scanned, self.bytes_scanned, PROBE_BUDGET)? {
            Ok(FindStep::Finish)
        } else {
            Ok(FindStep::More)
        }
    }

    /// Takes the document that a probe found: it is kept where it belongs to
    /// the collection and matches.
    pub fn take_probe(
        &mut self,
        collection: &str,
        filter: &Filter,
        options: &QueryOptions,
        cap: &ResultCap,
        found: Probed,
    ) -> (r: Result<FindStep, Error>)
        ensures
            ({
                let counted = LocalFindView {
                    bytes_scanned: plus(old(self)@.bytes_scanned, found.len),
                    ..old(self)@
                };
                match budget_outcome(
                    options@,
                    counted.scanned,
                    counted.bytes_scanned,
                    PROBE_BUDGET@,
                ) {
                    Err(e) => r is Err && r->Err_0@ == e,
                    Ok(true) => r == Ok::<FindStep, Error>(FindStep::Finish) && final(self)@
                        == counted,
                    Ok(false) => match probed(counted, collection@, filter@, *cap, found) {
                        Err(e) => r is Err && r->Err_0@ == e,
                        Ok(t) => r == Ok::<FindStep, Error>(FindStep::More) && final(self)@ == t,
                    },
                }
            }),
    {
        self.bytes_scanned = self.bytes_scanned.saturating_add(found.len);
        if budget_stop(options, self.scanned, self.bytes_scanned, PROBE_BUDGET)? {
            return Ok(FindStep::Finish);
        }
        let value = match found.decoded {
            Ok(v) => v,
            Err(e) => {
                return Err(e);
            },
        };
        if !filter.matches(&value) {
            return Ok(FindStep::More);
        }
        match found.subject {
            Some(subject) => {
                if same_text(subject.0.as_str(), collection) {
                    self.keep(SizedRow { key: subject.1, value, size: found.size }, cap)?;
                }
            },
            None => {},
        }
        Ok(FindStep::More)
    }
}

/// A find after a probed document.
pub open spec fn probed(
    s: LocalFindView,
    collection: Seq<char>,
    filter: crate::filter::FilterView,
    cap: ResultCap,
    found: Probed,
) -> Result<LocalFindView, ErrorView> {
    match found.decoded {
        Err(e) => Err(e@),
        Ok(v) => match found.subject {
            Some(subject) => if filter_matches(filter, v@) && subject.0@ == collection {
                kept(s, SizedRowView { key: subject.1@, value: v@, size: found.size }, cap)
            } else {
                Ok(s)
            },
            None => Ok(s),
        },
    }
}

/// A document that a probe found.
#[derive(Debug)]
pub struct Probed {
    /// Collection and key of the subject, where it has them.
    pub subject: Option<(String, String)>,
    /// Encoded length.
    pub len: u64,
    /// The document, or why it does not decode.
    pub decoded: Result<Json, Error>,
    /// Size estimate of the row.
    pub size: u64,
}

/// A page of a scan with size estimates.
#[derive(Debug)]
pub struct ScanPage {
    /// Rows.
    pub rows: Vec<SizedRow>,
    /// Whether there is no more.
    pub complete: bool,
    /// Whether the page says where to go on.
    pub goes_on: bool,
    /// Subjects examined.
    pub examined: usize,
    /// Bytes examined.
    pub bytes_examined: u64,
}

/// Refuses a find that cannot be complete and has to be.
pub fn find_start(options: &QueryOptions, tiers_incomplete: bool) -> (r: Result<(), Error>)
    ensures
        match r {
            Ok(_) => !tiers_incomplete || options@.allow_partial_coverage,
            Err(e) => tiers_incomplete && !options@.allow_partial_coverage && e@
                == ErrorView::CoverageIncomplete(
                "find refused: tier coverage incomplete (offline tiers / unavailable segments)"@,
            ),
        },
{
    if tiers_incomplete && !options.allow_partial_coverage {
        return Err(
            Error::CoverageIncomplete(
                "find refused: tier coverage incomplete (offline tiers / unavailable segments)".to_string(),
            ),
        );
    }
    Ok(())
}

/// What an index says of a filter.
#[derive(Debug, Clone, Copy)]
pub struct IndexAnswer {
    /// Whether the index can be used in its state.
    pub usable: bool,
    /// Whether every document is in it.
    pub complete_coverage: bool,
    /// How many documents it names.
    pub subjects: usize,
}

/// Whether a find goes by an index. An index that does not hold every document
/// cannot prove that there is no match.
pub fn goes_by_index(options: &QueryOptions, answer: &Option<IndexAnswer>) -> (r: bool)
    ensures
        r == (!options@.force_scan && (answer matches Some(a) && a.usable && (a.subjects > 0
            || a.complete_coverage))),
{
    if options.force_scan {
        return false;
    }
    match answer {
        Some(a) => a.usable && (a.subjects > 0 || a.complete_coverage),
        None => false,
    }
}

/// Rows per page that a find scans with.
pub fn find_page_size(options: &QueryOptions, default_page: usize, max_page: usize) -> (r: usize)
    requires
        1 <= max_page,
    ensures
        ({
            let n = match options@.limit {
                Some(n) => n,
                None => default_page,
            };
            r == (if n < 1 {
                1
            } else if n > max_page {
                max_page as int
            } else {
                n as int
            })
        }),
{
    let n = match options.limit {
        Some(n) => n,
        None => default_page,
    };
    if n < 1 {
        1
    } else if n > max_page {
        max_page
    } else {
        n
    }
}

/// A walk over the documents of a collection, page by page.
#[derive(Debug)]
pub struct JsonScan {
    /// Where to go on.
    pub continuation: Option<Vec<u8>>,
    /// Rows of the page at hand that were not handed out yet.
    pub buffer: VecDeque<(String, Json)>,
    /// Whether there are no more pages.
    pub done: bool,
    /// Whether a page was asked for.
    pub started: bool,
}

/// What a walk does next.
#[derive(Debug)]
pub enum ScanAction {
    /// Hand out this row.
    Row((String, Json)),
    /// There are no more rows.
    End,
    /// Fetch the page behind this continuation.
    Fetch(Option<Vec<u8>>),
}

impl JsonScan {
    /// A walk at its beginning.
    pub fn start() -> (r: JsonScan)
        ensures
            r.continuation is None,
            r.buffer@ == Seq::<(String, Json)>::empty(),
            !r.done,
            !r.started,
    {
        JsonScan { continuation: None, buffer: VecDeque::new(), done: false, started: false }
    }

    /// Decides what comes next.
    pub fn advance(&mut self) -> (r: ScanAction)
        ensures
            final(self).done == old(self).done,
            match r {
                ScanAction::Row(row) => old(self).buffer@.len() > 0 && row == old(self).buffer@[0]
                    && final(self).buffer@ == old(self).buffer@.drop_first()
                    && final(self).continuation == old(self).continuation
                    && final(self).started == old(self).started,
                ScanAction::End => old(self).buffer@.len() == 0 && old(self).done && final(self).buffer@.len() == 0 && final(self).continuation == old(self).continuation
                    && final(self).started == old(self).started,
                ScanAction::Fetch(c) => old(self).buffer@.len() == 0 && !old(self).done
                    && final(self).started && final(self).buffer@.len() == 0 && (match c {
                    Some(b) => old(self).started && (old(self).continuation matches Some(o) && o@
                        == b@),
                    None => !old(self).started || old(self).continuation is None,
                }) && final(self).continuation == old(self).continuation,
            },
    {
        let ghost before = self.buffer@;
        if let Some(row) = self.buffer.pop_front() {
            proof {
                assert(self.buffer@ =~= before.drop_first());
            }
            return ScanAction::Row(row);
        }
        if self.done {
            return ScanAction::End;
        }
        let c = if self.started {
            match &self.continuation {
                Some(b) => Some(crate::covered_reads::copy_bytes(b.as_slice())),
                None => None,
            }
        } else {
            None
        };
        self.started = true;
        ScanAction::Fetch(c)
    }

    /// Takes the page that was fetched. The walk is over once a page is
    /// complete or does not say where to go on; a failure ends it too and is
    /// handed out.
    pub fn take_page(&mut self, page: Result<JsonScanPage, Error>) -> (r: Option<Error>)
        requires
            old(self).buffer@.len() == 0,
        ensures
            final(self).started == old(self).started,
            match page {
                Ok(p) => r is None && final(self).buffer@ == p.rows@ && final(self).continuation
                    == p.continuation && final(self).done == (old(self).done || p.complete
                    || p.continuation is None),
                Err(e) => r == Some(e) && final(self).done && final(self).buffer@
                    == old(self).buffer@,
            },
    {
        match page {
            Ok(p) => {
                if p.complete || p.continuation.is_none() {
                    self.done = true;
                }
                self.continuation = p.continuation;
                self.buffer = queue_of(p.rows);
                None
            },
            Err(e) => {
                self.done = true;
                Some(e)
            },
        }
    }
}

} // verus!
