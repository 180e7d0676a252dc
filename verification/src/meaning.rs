//! What the library is for, stated on documents and values.
//!
//! The laws here say of a filter and of a filter object which documents they
//! match, in terms of integers, texts and the members of the documents. The
//! modules below do the same for the other parts: SQL and RQL texts,
//! predicates and sort orders, joins, finds and plans, cached reads, cursors,
//! routes, requests and what is said on the wire.
pub mod caches;
pub mod calls;
pub mod clients;
pub mod cursors;
pub mod finds;
pub mod joins;
pub mod predicates;
pub mod reads;
pub mod routes;
pub mod rql;
pub mod sql;
pub mod stores;
pub mod wire;
pub mod written;

use crate::filter::{
    conjunction, disjunction, field_segments, field_value, filter_in, filter_matches, fields_in,
    filters_in, operators_in, FilterView, PredView,
};
use crate::json::{json_same, lookup, JsonView, NumberView};
use crate::json_text::exact_integer;
use crate::predicate::resolve;
use crate::text::{
    begins_with, joined, law_join_split, lemma_text_order_equal, lemma_text_order_flip, pieces,
    text_order, Order,
};
use vstd::prelude::*;

verus! {

/// An integer as a JSON value.
pub open spec fn whole(n: int) -> JsonView {
    JsonView::Number(
        if n >= 0 {
            NumberView::PosInt(n as u64)
        } else {
            NumberView::NegInt(n as i64)
        },
    )
}

/// An integer that a double holds without rounding.
pub open spec fn exact(n: int) -> bool {
    -0x20_0000_0000_0000 <= n <= 0x20_0000_0000_0000
}

/// A document is an object whose first member of that name has that value.
pub open spec fn has_member(doc: JsonView, name: Seq<char>, value: JsonView) -> bool {
    doc matches JsonView::Object(m) && exists|i: int|
        0 <= i < m.len() && #[trigger] m[i] == (name, value) && forall|j: int|
            0 <= j < i ==> (#[trigger] m[j]).0 != name
}

/// A document is no object, or an object without a member of that name.
pub open spec fn lacks_member(doc: JsonView, name: Seq<char>) -> bool {
    doc matches JsonView::Object(m) ==> forall|j: int|
        0 <= j < m.len() ==> (#[trigger] m[j]).0 != name
}

/// A name that stands for a member of the document itself.
pub open spec fn plain_name(name: Seq<char>) -> bool {
    name.len() > 0 && !name.contains('.')
}

pub proof fn lemma_first_member(m: Seq<(Seq<char>, JsonView)>, name: Seq<char>, i: int)
    requires
        0 <= i < m.len(),
        m[i].0 == name,
        forall|j: int| 0 <= j < i ==> (#[trigger] m[j]).0 != name,
    ensures
        lookup(m, name) == Some(m[i].1),
    decreases m.len(),
{
    if i > 0 {
        let rest = m.drop_first();
        assert(m[0].0 != name);
        assert(rest[i - 1] == m[i]);
        assert forall|j: int| 0 <= j < i - 1 implies (#[trigger] rest[j]).0 != name by {
            assert(rest[j] == m[j + 1]);
        }
        lemma_first_member(rest, name, i - 1);
    }
}

pub proof fn lemma_no_member(m: Seq<(Seq<char>, JsonView)>, name: Seq<char>)
    requires
        forall|j: int| 0 <= j < m.len() ==> (#[trigger] m[j]).0 != name,
    ensures
        lookup(m, name) is None,
    decreases m.len(),
{
    if m.len() > 0 {
        let rest = m.drop_first();
        assert(m[0].0 != name);
        assert forall|j: int| 0 <= j < rest.len() implies (#[trigger] rest[j]).0 != name by {
            assert(rest[j] == m[j + 1]);
        }
        lemma_no_member(rest, name);
    }
}

proof fn lemma_one_piece(name: Seq<char>)
    requires
        plain_name(name),
    ensures
        pieces(name, '.') == seq![name],
{
    let parts = seq![name];
    assert forall|i: int| 0 <= i < parts.len() implies !(#[trigger] parts[i]).contains('.') by {}
    law_join_split(parts, '.');
    assert(joined(parts, seq!['.']) == name);
}

/// A name without a dot leads to the first member of that name, and nowhere in
/// a document without one. The empty path leads to the document.
pub proof fn law_name_leads_to_its_member(doc: JsonView, name: Seq<char>, value: JsonView)
    requires
        plain_name(name),
    ensures
        has_member(doc, name, value) ==> field_value(doc, name) == Some(value),
        lacks_member(doc, name) ==> field_value(doc, name) is None,
        field_value(doc, Seq::empty()) == Some(doc),
{
    lemma_one_piece(name);
    let path = field_segments(name);
    assert(path == seq![name]);
    assert(path.drop_first() =~= Seq::<Seq<char>>::empty());
    reveal_with_fuel(resolve, 2);
    if let JsonView::Object(m) = doc {
        if has_member(doc, name, value) {
            let i = choose|i: int|
                0 <= i < m.len() && #[trigger] m[i] == (name, value) && forall|j: int|
                    0 <= j < i ==> (#[trigger] m[j]).0 != name;
            lemma_first_member(m, name, i);
        }
        if lacks_member(doc, name) {
            lemma_no_member(m, name);
        }
    }
}

/// A dotted path leads where the rest of it leads in the member that its first
/// name leads to.
pub proof fn law_dotted_path_goes_down(
    doc: JsonView,
    name: Seq<char>,
    rest: Seq<char>,
    inner: JsonView,
)
    requires
        plain_name(name),
        rest.len() > 0,
    ensures
        has_member(doc, name, inner) ==> field_value(doc, name + seq!['.'] + rest) == field_value(
            inner,
            rest,
        ),
        lacks_member(doc, name) ==> field_value(doc, name + seq!['.'] + rest) is None,
{
    let path = name + seq!['.'] + rest;
    lemma_first_piece(name, rest);
    let segs = pieces(path, '.');
    assert(segs == seq![name] + pieces(rest, '.'));
    assert(segs.drop_first() =~= pieces(rest, '.'));
    assert(field_segments(path) == segs);
    if let JsonView::Object(m) = doc {
        if has_member(doc, name, inner) {
            let i = choose|i: int|
                0 <= i < m.len() && #[trigger] m[i] == (name, inner) && forall|j: int|
                    0 <= j < i ==> (#[trigger] m[j]).0 != name;
            lemma_first_member(m, name, i);
        }
        if lacks_member(doc, name) {
            lemma_no_member(m, name);
        }
    }
}

proof fn lemma_first_piece(name: Seq<char>, rest: Seq<char>)
    requires
        plain_name(name),
    ensures
        pieces(name + seq!['.'] + rest, '.') == seq![name] + pieces(rest, '.'),
    decreases rest.len(),
{
    let whole_text = name + seq!['.'] + rest;
    if rest.len() == 0 {
        lemma_one_piece(name);
        assert(whole_text.drop_last() =~= name);
        assert(whole_text.last() == '.');
        assert(pieces(rest, '.') == seq![Seq::<char>::empty()]);
        assert(seq![name].push(Seq::<char>::empty()) =~= seq![name] + pieces(rest, '.'));
    } else {
        let shorter = rest.drop_last();
        lemma_first_piece(name, shorter);
        crate::text::lemma_pieces_nonempty(shorter, '.');
        let before = pieces(shorter, '.');
        assert(whole_text.drop_last() =~= name + seq!['.'] + shorter);
        assert(whole_text.last() == rest.last());
        assert((seq![name] + before).drop_last() =~= seq![name] + before.drop_last());
        assert((seq![name] + before).last() == before.last());
        assert(pieces(whole_text, '.') =~= seq![name] + pieces(rest, '.'));
    }
}

/// One text stands before another: it is the beginning of it, or it has the
/// smaller character where they first differ.
pub open spec fn before(a: Seq<char>, b: Seq<char>) -> bool {
    exists|i: int|
        {
            &&& 0 <= i <= a.len() && i < b.len()
            &&& #[trigger] a.take(i) == b.take(i)
            &&& i == a.len() || (a[i] as u32) < (b[i] as u32)
        }
}

/// Texts are ordered by their first difference.
pub proof fn law_texts_are_ordered(a: Seq<char>, b: Seq<char>)
    ensures
        text_order(a, b) == Order::Less <==> before(a, b),
        text_order(a, b) == Order::Greater <==> before(b, a),
        text_order(a, b) == Order::Equal <==> a == b,
{
    lemma_text_order_equal(a, b);
    lemma_text_order_flip(a, b);
    lemma_before(a, b);
    lemma_before(b, a);
}

proof fn lemma_before(a: Seq<char>, b: Seq<char>)
    ensures
        text_order(a, b) == Order::Less <==> before(a, b),
    decreases a.len(),
{
    if a.len() == 0 {
        if b.len() > 0 {
            assert(a.take(0) =~= b.take(0));
        }
    } else if b.len() > 0 {
        let x = a.drop_first();
        let y = b.drop_first();
        if a[0] == b[0] {
            lemma_before(x, y);
            if before(x, y) {
                let i = choose|i: int|
                    {
                        &&& 0 <= i <= x.len() && i < y.len()
                        &&& #[trigger] x.take(i) == y.take(i)
                        &&& i == x.len() || (x[i] as u32) < (y[i] as u32)
                    };
                assert(a.take(i + 1) =~= seq![a[0]] + x.take(i));
                assert(b.take(i + 1) =~= seq![b[0]] + y.take(i));
            }
            if before(a, b) {
                let i = choose|i: int|
                    {
                        &&& 0 <= i <= a.len() && i < b.len()
                        &&& #[trigger] a.take(i) == b.take(i)
                        &&& i == a.len() || (a[i] as u32) < (b[i] as u32)
                    };
                assert(i > 0);
                assert(x.take(i - 1) =~= a.take(i).drop_first());
                assert(y.take(i - 1) =~= b.take(i).drop_first());
            }
        } else {
            if before(a, b) {
                let i = choose|i: int|
                    {
                        &&& 0 <= i <= a.len() && i < b.len()
                        &&& #[trigger] a.take(i) == b.take(i)
                        &&& i == a.len() || (a[i] as u32) < (b[i] as u32)
                    };
                if i > 0 {
                    assert(a.take(i)[0] == b.take(i)[0]);
                }
            }
            if text_order(a, b) == Order::Less {
                assert(a.take(0) =~= b.take(0));
            }
        }
    }
}

/// The filter that tests one field.
pub open spec fn on_field(name: Seq<char>, pred: PredView) -> FilterView {
    FilterView::Field { path: name, pred }
}

/// On a document with an integer under a name, a comparison of that field with
/// an integer holds exactly where it holds of the integers.
pub proof fn law_filter_compares_integers(doc: JsonView, name: Seq<char>, n: int, k: int)
    requires
        plain_name(name),
        exact(n),
        exact(k),
        has_member(doc, name, whole(n)),
    ensures
        filter_matches(on_field(name, PredView::Lt(whole(k))), doc) <==> n < k,
        filter_matches(on_field(name, PredView::Lte(whole(k))), doc) <==> n <= k,
        filter_matches(on_field(name, PredView::Gt(whole(k))), doc) <==> n > k,
        filter_matches(on_field(name, PredView::Gte(whole(k))), doc) <==> n >= k,
        filter_matches(on_field(name, PredView::Eq(whole(k))), doc) <==> n == k,
        filter_matches(on_field(name, PredView::Ne(whole(k))), doc) <==> n != k,
{
    law_name_leads_to_its_member(doc, name, whole(n));
    assert(exact_integer(whole(n)->Number_0) == Some(n));
    assert(exact_integer(whole(k)->Number_0) == Some(k));
}

/// On a document with a text under a name, a comparison of that field with a
/// text goes by the order of texts.
pub proof fn law_filter_compares_texts(
    doc: JsonView,
    name: Seq<char>,
    s: Seq<char>,
    t: Seq<char>,
)
    requires
        plain_name(name),
        has_member(doc, name, JsonView::Text(s)),
    ensures
        filter_matches(on_field(name, PredView::Lt(JsonView::Text(t))), doc) <==> before(s, t),
        filter_matches(on_field(name, PredView::Lte(JsonView::Text(t))), doc) <==> !before(t, s),
        filter_matches(on_field(name, PredView::Gt(JsonView::Text(t))), doc) <==> before(t, s),
        filter_matches(on_field(name, PredView::Gte(JsonView::Text(t))), doc) <==> !before(s, t),
        filter_matches(on_field(name, PredView::Eq(JsonView::Text(t))), doc) <==> s == t,
        filter_matches(on_field(name, PredView::Ne(JsonView::Text(t))), doc) <==> s != t,
        filter_matches(on_field(name, PredView::Prefix(t)), doc) <==> t.len() <= s.len() && s.take(
            t.len() as int,
        ) == t,
        filter_matches(on_field(name, PredView::Contains(JsonView::Text(t))), doc) <==> exists|
            at: int,
        |
            0 <= at <= s.len() - t.len() && #[trigger] s.subrange(at, at + t.len()) == t,
{
    law_name_leads_to_its_member(doc, name, JsonView::Text(s));
    law_texts_are_ordered(s, t);
    if exists|at: int|
        0 <= at <= s.len() - t.len() && #[trigger] s.subrange(at, at + t.len()) == t {
        let at = choose|at: int|
            0 <= at <= s.len() - t.len() && #[trigger] s.subrange(at, at + t.len()) == t;
        assert(crate::text::stands_at(s, t, at));
    }
    if crate::text::holds_text(s, t) {
        let at = choose|at: int| crate::text::stands_at(s, t, at);
        assert(s.subrange(at, at + t.len()) == t);
    }
}

/// Values of different kinds are neither below, at nor above each other, and
/// they are unequal. A field that is not there satisfies only absence and
/// inequality.
pub proof fn law_filter_keeps_kinds_apart(
    doc: JsonView,
    name: Seq<char>,
    value: JsonView,
    other: JsonView,
)
    requires
        plain_name(name),
        has_member(doc, name, value) && !(value is Number && other is Number) && !(value is Text
            && other is Text) || lacks_member(doc, name),
    ensures
        !filter_matches(on_field(name, PredView::Lt(other)), doc),
        !filter_matches(on_field(name, PredView::Lte(other)), doc),
        !filter_matches(on_field(name, PredView::Gt(other)), doc),
        !filter_matches(on_field(name, PredView::Gte(other)), doc),
        lacks_member(doc, name) ==> !filter_matches(on_field(name, PredView::Eq(other)), doc)
            && filter_matches(on_field(name, PredView::Ne(other)), doc),
{
    law_name_leads_to_its_member(doc, name, value);
}

/// A field is tested for presence and for absence; a field that is `null` is
/// there.
pub proof fn law_filter_tests_presence(doc: JsonView, name: Seq<char>, value: JsonView)
    requires
        plain_name(name),
    ensures
        has_member(doc, name, value) ==> filter_matches(
            on_field(name, PredView::Exists(true)),
            doc,
        ) && !filter_matches(on_field(name, PredView::Exists(false)), doc),
        lacks_member(doc, name) ==> !filter_matches(on_field(name, PredView::Exists(true)), doc)
            && filter_matches(on_field(name, PredView::Exists(false)), doc),
{
    law_name_leads_to_its_member(doc, name, value);
}

/// A value equals itself; of equal values one is `null`, a truth value or a text
/// only where both are that same one. Unequal is what is not equal.
pub proof fn law_filter_tests_equality(
    doc: JsonView,
    name: Seq<char>,
    value: JsonView,
    other: JsonView,
)
    requires
        plain_name(name),
        has_member(doc, name, value),
    ensures
        value == other ==> filter_matches(on_field(name, PredView::Eq(other)), doc),
        value != other && (value is Null || value is Bool || value is Text || other is Null
            || other is Bool || other is Text) ==> !filter_matches(
            on_field(name, PredView::Eq(other)),
            doc,
        ),
        filter_matches(on_field(name, PredView::Ne(other)), doc) == !filter_matches(
            on_field(name, PredView::Eq(other)),
            doc,
        ),
{
    law_name_leads_to_its_member(doc, name, value);
    crate::json::law_json_same_reflexive(value);
}

/// A list test holds exactly where equality with one of the values holds, and
/// an array contains what one of its elements equals.
pub proof fn law_filter_tests_lists(
    doc: JsonView,
    name: Seq<char>,
    list: Seq<JsonView>,
    items: Seq<JsonView>,
    needle: JsonView,
)
    requires
        plain_name(name),
    ensures
        filter_matches(on_field(name, PredView::In(list)), doc) <==> exists|i: int|
            0 <= i < list.len() && filter_matches(
                on_field(name, PredView::Eq(#[trigger] list[i])),
                doc,
            ),
        has_member(doc, name, JsonView::Array(items)) ==> (filter_matches(
            on_field(name, PredView::Contains(needle)),
            doc,
        ) <==> exists|i: int| 0 <= i < items.len() && json_same(#[trigger] items[i], needle)),
{
    law_name_leads_to_its_member(doc, name, JsonView::Array(items));
    match field_value(doc, name) {
        Some(v) => {
            assert forall|i: int| 0 <= i < list.len() implies json_same(#[trigger] list[i], v)
                == filter_matches(on_field(name, PredView::Eq(list[i])), doc) by {
                crate::json::law_json_same_symmetric(v, list[i]);
            }
        },
        None => {},
    }
}

/// Conjunction, disjunction and negation of filters.
pub proof fn law_filters_combine(parts: Seq<FilterView>, f: FilterView, doc: JsonView)
    ensures
        filter_matches(FilterView::Always, doc),
        filter_matches(conjunction(parts), doc) <==> forall|i: int|
            0 <= i < parts.len() ==> filter_matches(#[trigger] parts[i], doc),
        filter_matches(disjunction(parts), doc) <==> exists|i: int|
            0 <= i < parts.len() && filter_matches(#[trigger] parts[i], doc),
        filter_matches(FilterView::Not(Box::new(f)), doc) <==> !filter_matches(f, doc),
{
    let and = FilterView::And(parts);
    let or = FilterView::Or(parts);
    assert(filter_matches(and, doc) <==> forall|i: int|
        0 <= i < and->And_0.len() ==> filter_matches(#[trigger] and->And_0[i], doc));
    assert(filter_matches(or, doc) <==> exists|i: int|
        0 <= i < or->Or_0.len() && filter_matches(#[trigger] or->Or_0[i], doc));
    if parts.len() == 1 {
        assert(filter_matches(parts[0], doc) == filter_matches(conjunction(parts), doc));
    }
    let never = FilterView::Not(Box::new(FilterView::Always));
    assert(!filter_matches(never, doc)) by {
        reveal_with_fuel(filter_matches, 3);
    }
}

/// An object with one member.
pub open spec fn object_of(name: Seq<char>, value: JsonView) -> JsonView {
    JsonView::Object(seq![(name, value)])
}

/// A filter object is read, and the filter that it is read as matches.
pub open spec fn json_matches(filter: JsonView, doc: JsonView) -> bool {
    filter_in(filter) is Ok && filter_matches(filter_in(filter)->Ok_0, doc)
}

/// A filter object that tests one field with one operator.
pub open spec fn with_operator(name: Seq<char>, op: Seq<char>, value: JsonView) -> JsonView {
    object_of(name, object_of(op, value))
}

/// A name that a filter object can test: it does not begin like an operator.
pub open spec fn testable(name: Seq<char>) -> bool {
    plain_name(name) && name[0] != '$'
}

proof fn lemma_names_no_combinator(name: Seq<char>)
    requires
        testable(name),
    ensures
        !begins_with(name, "$"@),
        name != "$and"@ && name != "$or"@ && name != "$not"@,
{
    reveal_strlit("$");
    reveal_strlit("$and");
    reveal_strlit("$or");
    reveal_strlit("$not");
    if begins_with(name, "$"@) {
        assert(name.take(1)[0] == "$"@[0]);
    }
}

proof fn lemma_one_field(name: Seq<char>, value: JsonView)
    requires
        testable(name),
    ensures
        filter_in(object_of(name, value)) == crate::filter::field_in(name, value),
{
    lemma_names_no_combinator(name);
    let m = seq![(name, value)];
    assert(m.drop_first().len() == 0);
    lemma_no_member(m, "$and"@);
    lemma_no_member(m, "$or"@);
    lemma_no_member(m, "$not"@);
    assert(m.drop_last().len() == 0);
    assert(m.last() == (name, value));
    assert(fields_in(m.drop_last()) == Ok::<Seq<FilterView>, crate::error::ErrorView>(
        Seq::empty(),
    ));
    match crate::filter::field_in(name, value) {
        Ok(f) => {
            assert(Seq::<FilterView>::empty().push(f)[0] == f);
        },
        Err(e) => {},
    }
}

proof fn lemma_one_operator(name: Seq<char>, op: Seq<char>, value: JsonView)
    requires
        testable(name),
    ensures
        match crate::filter::pred_in(op, value) {
            Ok(pred) => filter_in(with_operator(name, op, value)) == Ok::<
                FilterView,
                crate::error::ErrorView,
            >(on_field(name, pred)),
            Err(e) => filter_in(with_operator(name, op, value)) == Err::<
                FilterView,
                crate::error::ErrorView,
            >(e),
        },
{
    lemma_one_field(name, object_of(op, value));
    let m = seq![(op, value)];
    assert(m.drop_last().len() == 0);
    assert(m.last() == (op, value));
    assert(operators_in(name, m.drop_last()) == Ok::<Seq<FilterView>, crate::error::ErrorView>(
        Seq::empty(),
    ));
    match crate::filter::pred_in(op, value) {
        Ok(pred) => {
            assert(Seq::<FilterView>::empty().push(on_field(name, pred))[0] == on_field(
                name,
                pred,
            ));
        },
        Err(e) => {},
    }
}

proof fn lemma_operators_told_apart()
    ensures
        "$eq"@ != "$ne"@ && "$eq"@ != "$lt"@ && "$eq"@ != "$lte"@ && "$eq"@ != "$gt"@ && "$eq"@
            != "$gte"@ && "$eq"@ != "$in"@ && "$eq"@ != "$exists"@ && "$eq"@ != "$prefix"@,
        "$ne"@ != "$lt"@ && "$ne"@ != "$lte"@ && "$ne"@ != "$gt"@ && "$ne"@ != "$gte"@ && "$ne"@
            != "$in"@ && "$ne"@ != "$exists"@ && "$ne"@ != "$prefix"@ && "$ne"@ != "$contains"@,
        "$lt"@ != "$lte"@ && "$lt"@ != "$gt"@ && "$lt"@ != "$gte"@ && "$lt"@ != "$in"@ && "$lt"@
            != "$exists"@ && "$lt"@ != "$prefix"@ && "$lt"@ != "$contains"@,
        "$lte"@ != "$gt"@ && "$lte"@ != "$gte"@ && "$lte"@ != "$in"@ && "$lte"@ != "$exists"@
            && "$lte"@ != "$prefix"@ && "$lte"@ != "$contains"@,
        "$gt"@ != "$gte"@ && "$gt"@ != "$in"@ && "$gt"@ != "$exists"@ && "$gt"@ != "$prefix"@
            && "$gt"@ != "$contains"@,
        "$gte"@ != "$in"@ && "$gte"@ != "$exists"@ && "$gte"@ != "$prefix"@ && "$gte"@
            != "$contains"@,
        "$in"@ != "$exists"@ && "$in"@ != "$prefix"@ && "$in"@ != "$contains"@,
        "$exists"@ != "$prefix"@ && "$exists"@ != "$contains"@,
        "$prefix"@ != "$contains"@ && "$eq"@ != "$contains"@,
{
    reveal_strlit("$eq");
    reveal_strlit("$ne");
    reveal_strlit("$lt");
    reveal_strlit("$lte");
    reveal_strlit("$gt");
    reveal_strlit("$gte");
    reveal_strlit("$in");
    reveal_strlit("$exists");
    reveal_strlit("$prefix");
    reveal_strlit("$contains");
    assert("$eq"@[1] == 'e');
    assert("$ne"@[1] == 'n');
    assert("$lt"@[1] == 'l');
    assert("$lte"@[1] == 'l');
    assert("$gt"@[1] == 'g');
    assert("$gte"@[1] == 'g');
    assert("$in"@[1] == 'i');
    assert("$exists"@[1] == 'e');
    assert("$prefix"@[1] == 'p');
    assert("$contains"@[1] == 'c');
    assert("$lt"@.len() == 3 && "$lte"@.len() == 4 && "$gt"@.len() == 3 && "$gte"@.len() == 4);
    assert("$eq"@.len() == 3 && "$exists"@.len() == 7);
}

/// A filter object that compares a field with an integer matches a document with
/// an integer under that name exactly where the comparison holds of the
/// integers.
pub proof fn law_filter_object_compares_integers(doc: JsonView, name: Seq<char>, n: int, k: int)
    requires
        testable(name),
        exact(n),
        exact(k),
        has_member(doc, name, whole(n)),
    ensures
        json_matches(with_operator(name, "$lt"@, whole(k)), doc) <==> n < k,
        json_matches(with_operator(name, "$lte"@, whole(k)), doc) <==> n <= k,
        json_matches(with_operator(name, "$gt"@, whole(k)), doc) <==> n > k,
        json_matches(with_operator(name, "$gte"@, whole(k)), doc) <==> n >= k,
        json_matches(with_operator(name, "$eq"@, whole(k)), doc) <==> n == k,
        json_matches(with_operator(name, "$ne"@, whole(k)), doc) <==> n != k,
        json_matches(object_of(name, whole(k)), doc) <==> n == k,
{
    lemma_operators_told_apart();
    lemma_one_operator(name, "$lt"@, whole(k));
    lemma_one_operator(name, "$lte"@, whole(k));
    lemma_one_operator(name, "$gt"@, whole(k));
    lemma_one_operator(name, "$gte"@, whole(k));
    lemma_one_operator(name, "$eq"@, whole(k));
    lemma_one_operator(name, "$ne"@, whole(k));
    lemma_one_field(name, whole(k));
    law_filter_compares_integers(doc, name, n, k);
}

/// A filter object that compares a field with a text matches a document with a
/// text under that name by the order of texts, by its beginning and by what
/// stands in it.
pub proof fn law_filter_object_compares_texts(
    doc: JsonView,
    name: Seq<char>,
    s: Seq<char>,
    t: Seq<char>,
)
    requires
        testable(name),
        has_member(doc, name, JsonView::Text(s)),
    ensures
        json_matches(with_operator(name, "$lt"@, JsonView::Text(t)), doc) <==> before(s, t),
        json_matches(with_operator(name, "$lte"@, JsonView::Text(t)), doc) <==> !before(t, s),
        json_matches(with_operator(name, "$gt"@, JsonView::Text(t)), doc) <==> before(t, s),
        json_matches(with_operator(name, "$gte"@, JsonView::Text(t)), doc) <==> !before(s, t),
        json_matches(with_operator(name, "$eq"@, JsonView::Text(t)), doc) <==> s == t,
        json_matches(with_operator(name, "$ne"@, JsonView::Text(t)), doc) <==> s != t,
        json_matches(object_of(name, JsonView::Text(t)), doc) <==> s == t,
        json_matches(with_operator(name, "$prefix"@, JsonView::Text(t)), doc) <==> t.len()
            <= s.len() && s.take(t.len() as int) == t,
        json_matches(with_operator(name, "$contains"@, JsonView::Text(t)), doc) <==> exists|
            at: int,
        |
            0 <= at <= s.len() - t.len() && #[trigger] s.subrange(at, at + t.len()) == t,
{
    let v = JsonView::Text(t);
    lemma_operators_told_apart();
    lemma_one_operator(name, "$lt"@, v);
    lemma_one_operator(name, "$lte"@, v);
    lemma_one_operator(name, "$gt"@, v);
    lemma_one_operator(name, "$gte"@, v);
    lemma_one_operator(name, "$eq"@, v);
    lemma_one_operator(name, "$ne"@, v);
    lemma_one_operator(name, "$prefix"@, v);
    lemma_one_operator(name, "$contains"@, v);
    lemma_one_field(name, v);
    law_filter_compares_texts(doc, name, s, t);
}

/// A filter object tests a field for being there, for being one of several
/// values and, as an array, for an element; an unknown operator is refused.
pub proof fn law_filter_object_tests_fields(
    doc: JsonView,
    name: Seq<char>,
    value: JsonView,
    list: Seq<JsonView>,
    op: Seq<char>,
)
    requires
        testable(name),
    ensures
        has_member(doc, name, value) ==> json_matches(
            with_operator(name, "$exists"@, JsonView::Bool(true)),
            doc,
        ) && !json_matches(with_operator(name, "$exists"@, JsonView::Bool(false)), doc),
        lacks_member(doc, name) ==> json_matches(
            with_operator(name, "$exists"@, JsonView::Bool(false)),
            doc,
        ) && !json_matches(with_operator(name, "$exists"@, JsonView::Bool(true)), doc),
        lacks_member(doc, name) ==> json_matches(with_operator(name, "$ne"@, value), doc)
            && !json_matches(with_operator(name, "$eq"@, value), doc),
        has_member(doc, name, value) ==> json_matches(with_operator(name, "$eq"@, value), doc)
            && !json_matches(with_operator(name, "$ne"@, value), doc),
        !(value is Object) ==> json_matches(object_of(name, value), doc) == json_matches(
            with_operator(name, "$eq"@, value),
            doc,
        ),
        json_matches(with_operator(name, "$in"@, JsonView::Array(list)), doc) <==> exists|i: int|
            0 <= i < list.len() && json_matches(
                with_operator(name, "$eq"@, #[trigger] list[i]),
                doc,
            ),
        has_member(doc, name, JsonView::Array(list)) ==> (json_matches(
            with_operator(name, "$contains"@, value),
            doc,
        ) <==> exists|i: int| 0 <= i < list.len() && json_same(#[trigger] list[i], value)),
        !(seq![
            "$eq"@,
            "$ne"@,
            "$lt"@,
            "$lte"@,
            "$gt"@,
            "$gte"@,
            "$in"@,
            "$exists"@,
            "$prefix"@,
            "$contains"@,
        ].contains(op)) ==> filter_in(with_operator(name, op, value)) is Err,
{
    lemma_operators_told_apart();
    lemma_one_operator(name, "$exists"@, JsonView::Bool(true));
    lemma_one_operator(name, "$exists"@, JsonView::Bool(false));
    lemma_one_operator(name, "$eq"@, value);
    lemma_one_operator(name, "$ne"@, value);
    lemma_one_operator(name, "$in"@, JsonView::Array(list));
    lemma_one_operator(name, "$contains"@, value);
    lemma_one_operator(name, op, value);
    lemma_one_field(name, value);
    law_filter_tests_presence(doc, name, value);
    law_filter_tests_lists(doc, name, list, list, value);
    if has_member(doc, name, value) {
        law_filter_tests_equality(doc, name, value, value);
    }
    if lacks_member(doc, name) {
        law_filter_keeps_kinds_apart(doc, name, value, value);
    }
    assert forall|i: int| 0 <= i < list.len() implies json_matches(
        with_operator(name, "$eq"@, #[trigger] list[i]),
        doc,
    ) == filter_matches(on_field(name, PredView::Eq(list[i])), doc) by {
        lemma_one_operator(name, "$eq"@, list[i]);
    }
    if filter_matches(on_field(name, PredView::In(list)), doc) {
        let i = choose|i: int|
            0 <= i < list.len() && filter_matches(
                on_field(name, PredView::Eq(#[trigger] list[i])),
                doc,
            );
        assert(json_matches(with_operator(name, "$eq"@, list[i]), doc));
    }
    let known = seq![
        "$eq"@,
        "$ne"@,
        "$lt"@,
        "$lte"@,
        "$gt"@,
        "$gte"@,
        "$in"@,
        "$exists"@,
        "$prefix"@,
        "$contains"@,
    ];
    assert(known[0] == "$eq"@ && known[1] == "$ne"@ && known[2] == "$lt"@ && known[3] == "$lte"@
        && known[4] == "$gt"@ && known[5] == "$gte"@ && known[6] == "$in"@ && known[7]
        == "$exists"@ && known[8] == "$prefix"@ && known[9] == "$contains"@);
}

proof fn lemma_all_read(items: Seq<JsonView>)
    ensures
        filters_in(items) is Ok <==> forall|i: int|
            0 <= i < items.len() ==> filter_in(#[trigger] items[i]) is Ok,
        filters_in(items) is Ok ==> filters_in(items)->Ok_0.len() == items.len() && forall|i: int|
            0 <= i < items.len() ==> filter_in(#[trigger] items[i])->Ok_0 == filters_in(
                items,
            )->Ok_0[i],
    decreases items.len(),
{
    if items.len() > 0 {
        let head = items.drop_last();
        lemma_all_read(head);
        assert(forall|i: int| 0 <= i < head.len() ==> head[i] == #[trigger] items[i]);
        assert(items.last() == items[items.len() - 1]);
        if filters_in(items) is Ok {
            assert forall|i: int| 0 <= i < items.len() implies filter_in(#[trigger] items[i]) is Ok
                && filter_in(items[i])->Ok_0 == filters_in(items)->Ok_0[i] by {
                if i < head.len() {
                    assert(filter_in(head[i]) is Ok);
                }
            }
        }
    }
}

/// The combinators of filter objects: `$and` holds where all hold, `$or` where
/// one holds, `$not` where the one does not. They are read where all their
/// parts are read.
pub proof fn law_filter_object_combines(items: Seq<JsonView>, f: JsonView, doc: JsonView)
    requires
        forall|i: int| 0 <= i < items.len() ==> filter_in(#[trigger] items[i]) is Ok,
        filter_in(f) is Ok,
    ensures
        json_matches(JsonView::Object(Seq::empty()), doc),
        json_matches(object_of("$and"@, JsonView::Array(items)), doc) <==> forall|i: int|
            0 <= i < items.len() ==> json_matches(#[trigger] items[i], doc),
        json_matches(object_of("$or"@, JsonView::Array(items)), doc) <==> exists|i: int|
            0 <= i < items.len() && json_matches(#[trigger] items[i], doc),
        json_matches(object_of("$not"@, f), doc) <==> !json_matches(f, doc),
        filter_in(object_of("$or"@, JsonView::Array(items))) is Ok,
        filter_in(object_of("$not"@, f)) is Ok,
{
    reveal_strlit("$and");
    reveal_strlit("$or");
    reveal_strlit("$not");
    assert("$and"@[1] == 'a' && "$or"@[1] == 'o' && "$not"@[1] == 'n');
    lemma_all_read(items);
    let parts = filters_in(items)->Ok_0;
    law_filters_combine(parts, filter_in(f)->Ok_0, doc);
    let list = JsonView::Array(items);
    let a = seq![("$and"@, list)];
    let o = seq![("$or"@, list)];
    let n = seq![("$not"@, f)];
    lemma_first_member(a, "$and"@, 0);
    lemma_no_member(o, "$and"@);
    lemma_first_member(o, "$or"@, 0);
    lemma_no_member(n, "$and"@);
    lemma_no_member(n, "$or"@);
    lemma_first_member(n, "$not"@, 0);
    assert(filter_in(object_of("$and"@, list)) == Ok::<FilterView, crate::error::ErrorView>(
        conjunction(parts),
    ));
    assert(filter_in(object_of("$or"@, list)) == Ok::<FilterView, crate::error::ErrorView>(
        disjunction(parts),
    ));
    assert(filter_in(object_of("$not"@, f)) == Ok::<FilterView, crate::error::ErrorView>(
        FilterView::Not(Box::new(filter_in(f)->Ok_0)),
    ));
    assert forall|i: int| 0 <= i < items.len() implies json_matches(#[trigger] items[i], doc)
        == filter_matches(parts[i], doc) by {}
    if filter_matches(disjunction(parts), doc) {
        let i = choose|i: int| 0 <= i < parts.len() && filter_matches(#[trigger] parts[i], doc);
        assert(json_matches(items[i], doc));
    }
    if filter_matches(conjunction(parts), doc) {
        assert forall|i: int| 0 <= i < items.len() implies json_matches(#[trigger] items[i], doc) by {
            assert(filter_matches(parts[i], doc));
        }
    }
    if forall|i: int| 0 <= i < items.len() ==> json_matches(#[trigger] items[i], doc) {
        assert forall|i: int| 0 <= i < parts.len() implies filter_matches(#[trigger] parts[i], doc) by {
            assert(json_matches(items[i], doc));
        }
    }
}

/// A filter object with several members holds where each of them holds alone,
/// and so does a field with several operators.
pub proof fn law_filter_object_takes_members_together(
    first: (Seq<char>, JsonView),
    second: (Seq<char>, JsonView),
    name: Seq<char>,
    one: (Seq<char>, JsonView),
    two: (Seq<char>, JsonView),
    doc: JsonView,
)
    requires
        testable(first.0),
        testable(second.0),
        testable(name),
    ensures
        json_matches(JsonView::Object(seq![first, second]), doc) <==> json_matches(
            object_of(first.0, first.1),
            doc,
        ) && json_matches(object_of(second.0, second.1), doc),
        json_matches(object_of(name, JsonView::Object(seq![one, two])), doc) <==> json_matches(
            with_operator(name, one.0, one.1),
            doc,
        ) && json_matches(with_operator(name, two.0, two.1), doc),
{
    lemma_names_no_combinator(first.0);
    lemma_names_no_combinator(second.0);
    lemma_one_field(first.0, first.1);
    lemma_one_field(second.0, second.1);
    let m = seq![first, second];
    assert(m.drop_last() =~= seq![first]);
    assert(seq![first].drop_last().len() == 0);
    assert(seq![first].last() == first);
    reveal_with_fuel(fields_in, 3);
    if let (Ok(a), Ok(b)) = (
        crate::filter::field_in(first.0, first.1),
        crate::filter::field_in(second.0, second.1),
    ) {
        let parts = Seq::<FilterView>::empty().push(a).push(b);
        assert(fields_in(m) == Ok::<Seq<FilterView>, crate::error::ErrorView>(parts));
        law_filters_combine(parts, a, doc);
        assert(parts[0] == a && parts[1] == b);
    }
    let ops = seq![one, two];
    lemma_one_field(name, JsonView::Object(ops));
    lemma_one_operator(name, one.0, one.1);
    lemma_one_operator(name, two.0, two.1);
    assert(ops.drop_last() =~= seq![one]);
    assert(seq![one].drop_last().len() == 0);
    assert(seq![one].last() == one);
    reveal_with_fuel(operators_in, 3);
    if let (Ok(a), Ok(b)) = (
        crate::filter::pred_in(one.0, one.1),
        crate::filter::pred_in(two.0, two.1),
    ) {
        let parts = Seq::<FilterView>::empty().push(on_field(name, a)).push(on_field(name, b));
        assert(operators_in(name, ops) == Ok::<Seq<FilterView>, crate::error::ErrorView>(parts));
        law_filters_combine(parts, on_field(name, a), doc);
        assert(parts[0] == on_field(name, a) && parts[1] == on_field(name, b));
    }
}

} // verus!
