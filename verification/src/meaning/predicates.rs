//! What predicates and sort orders mean, stated on documents and values.
use crate::error::ErrorView;
use crate::filter::{field_order, SortOrder};
use crate::json::{json_same, law_json_same_reflexive, lookup, JsonView};
use crate::json_text::exact_integer;
use crate::meaning::{
    before, exact, has_member, lacks_member, law_name_leads_to_its_member, law_texts_are_ordered,
    lemma_first_member, lemma_no_member, plain_name, whole,
};
use crate::predicate::{
    all_evaluate, any_evaluates, compare_op_named, evaluates, path_in,
    predicate_in, predicates_in, resolve, segments_in, CompareOp, OperandView, PredicateView,
    MAX_PATH_SEGMENTS,
};
use crate::text::{holds_text, stands_at, Order};
use vstd::prelude::*;

verus! {

/// Parameters of a query.
pub type Params = Seq<(Seq<char>, JsonView)>;

/// A path leads down from one document to the next, one name at a time.
pub open spec fn walks(docs: Seq<JsonView>, path: Seq<Seq<char>>) -> bool {
    &&& docs.len() == path.len() + 1
    &&& forall|i: int|
        0 <= i < path.len() ==> has_member(#[trigger] docs[i], path[i], docs[i + 1])
}

/// A path that can be walked leads to the last document, and one that breaks
/// off where a member is missing leads nowhere.
pub proof fn law_path_is_walked(docs: Seq<JsonView>, path: Seq<Seq<char>>, rest: Seq<Seq<char>>)
    requires
        walks(docs, path),
    ensures
        resolve(docs[0], path) == Some(docs.last()),
        rest.len() > 0 && lacks_member(docs.last(), rest[0]) ==> resolve(docs[0], path + rest)
            is None,
    decreases path.len(),
{
    if path.len() == 0 {
        assert(path + rest =~= rest);
        if rest.len() > 0 && lacks_member(docs.last(), rest[0]) {
            if let JsonView::Object(m) = docs[0] {
                lemma_no_member(m, rest[0]);
            }
        }
    } else {
        let m = docs[0]->Object_0;
        assert(has_member(docs[0], path[0], docs[1]));
        let i = choose|i: int|
            0 <= i < m.len() && #[trigger] m[i] == (path[0], docs[1]) && forall|j: int|
                0 <= j < i ==> (#[trigger] m[j]).0 != path[0];
        lemma_first_member(m, path[0], i);
        let later = docs.drop_first();
        let names = path.drop_first();
        assert forall|i: int| 0 <= i < names.len() implies has_member(
            #[trigger] later[i],
            names[i],
            later[i + 1],
        ) by {
            assert(later[i] == docs[i + 1]);
        }
        law_path_is_walked(later, names, rest);
        assert((path + rest).drop_first() =~= names + rest);
    }
}

/// A comparison of what a path leads to with a constant.
pub open spec fn path_with(cmp: CompareOp, path: Seq<Seq<char>>, value: JsonView) -> PredicateView {
    PredicateView::Cmp {
        cmp,
        left: OperandView::Path { path },
        right: OperandView::Literal { value },
    }
}

/// A comparison of two constants.
pub open spec fn constants(cmp: CompareOp, left: JsonView, right: JsonView) -> PredicateView {
    PredicateView::Cmp {
        cmp,
        left: OperandView::Literal { value: left },
        right: OperandView::Literal { value: right },
    }
}

/// A predicate holds of a document.
pub open spec fn holds(p: PredicateView, doc: JsonView, params: Params) -> bool {
    evaluates(p, doc, params) == Ok::<bool, ErrorView>(true)
}

/// Comparisons of integers are those of the integers, wherever the operands
/// come from: a path, a constant or a parameter.
pub proof fn law_predicate_compares_integers(
    docs: Seq<JsonView>,
    path: Seq<Seq<char>>,
    params: Params,
    name: Seq<char>,
    n: int,
    k: int,
)
    requires
        walks(docs, path),
        docs.last() == whole(n),
        exact(n),
        exact(k),
    ensures
        holds(path_with(CompareOp::Lt, path, whole(k)), docs[0], params) <==> n < k,
        holds(path_with(CompareOp::Lte, path, whole(k)), docs[0], params) <==> n <= k,
        holds(path_with(CompareOp::Gt, path, whole(k)), docs[0], params) <==> n > k,
        holds(path_with(CompareOp::Gte, path, whole(k)), docs[0], params) <==> n >= k,
        holds(path_with(CompareOp::Eq, path, whole(k)), docs[0], params) <==> n == k,
        holds(path_with(CompareOp::Ne, path, whole(k)), docs[0], params) <==> n != k,
        holds(constants(CompareOp::Lt, whole(n), whole(k)), docs[0], params) <==> n < k,
        holds(constants(CompareOp::Lte, whole(n), whole(k)), docs[0], params) <==> n <= k,
        holds(constants(CompareOp::Gt, whole(n), whole(k)), docs[0], params) <==> n > k,
        holds(constants(CompareOp::Gte, whole(n), whole(k)), docs[0], params) <==> n >= k,
        has_member(JsonView::Object(params), name, whole(k)) ==> (holds(
            PredicateView::Cmp {
                cmp: CompareOp::Lt,
                left: OperandView::Path { path },
                right: OperandView::Param { name },
            },
            docs[0],
            params,
        ) <==> n < k) && (holds(
            PredicateView::Cmp {
                cmp: CompareOp::Lt,
                left: OperandView::Param { name },
                right: OperandView::Path { path },
            },
            docs[0],
            params,
        ) <==> k < n),
{
    law_path_is_walked(docs, path, Seq::empty());
    assert(exact_integer(whole(n)->Number_0) == Some(n));
    assert(exact_integer(whole(k)->Number_0) == Some(k));
    if has_member(JsonView::Object(params), name, whole(k)) {
        let i = choose|i: int|
            0 <= i < params.len() && #[trigger] params[i] == (name, whole(k)) && forall|j: int|
                0 <= j < i ==> (#[trigger] params[j]).0 != name;
        lemma_first_member(params, name, i);
    }
}

/// Comparisons of texts go by the order of texts, and the tests of texts by
/// where one stands in the other.
pub proof fn law_predicate_compares_texts(
    docs: Seq<JsonView>,
    path: Seq<Seq<char>>,
    params: Params,
    s: Seq<char>,
    t: Seq<char>,
)
    requires
        walks(docs, path),
        docs.last() == JsonView::Text(s),
    ensures
        holds(path_with(CompareOp::Lt, path, JsonView::Text(t)), docs[0], params) <==> before(s, t),
        holds(path_with(CompareOp::Lte, path, JsonView::Text(t)), docs[0], params) <==> !before(
            t,
            s,
        ),
        holds(path_with(CompareOp::Gt, path, JsonView::Text(t)), docs[0], params) <==> before(t, s),
        holds(path_with(CompareOp::Gte, path, JsonView::Text(t)), docs[0], params) <==> !before(
            s,
            t,
        ),
        holds(path_with(CompareOp::Eq, path, JsonView::Text(t)), docs[0], params) <==> s == t,
        holds(path_with(CompareOp::Ne, path, JsonView::Text(t)), docs[0], params) <==> s != t,
        holds(PredicateView::StartsWith { path, prefix: t }, docs[0], params) <==> t.len()
            <= s.len() && s.take(t.len() as int) == t,
        holds(PredicateView::Contains { path, needle: JsonView::Text(t) }, docs[0], params)
            <==> exists|at: int|
            0 <= at <= s.len() - t.len() && #[trigger] s.subrange(at, at + t.len()) == t,
{
    law_path_is_walked(docs, path, Seq::empty());
    law_texts_are_ordered(s, t);
    if exists|at: int|
        0 <= at <= s.len() - t.len() && #[trigger] s.subrange(at, at + t.len()) == t {
        let at = choose|at: int|
            0 <= at <= s.len() - t.len() && #[trigger] s.subrange(at, at + t.len()) == t;
        assert(stands_at(s, t, at));
    }
    if holds_text(s, t) {
        let at = choose|at: int| stands_at(s, t, at);
        assert(s.subrange(at, at + t.len()) == t);
    }
}

/// What is tested of the presence of a path, and of a list. A path to `null`
/// is there; one that breaks off is missing, and is neither equal, unequal, in
/// a list, out of a list nor `null`.
pub proof fn law_predicate_tests_presence(
    docs: Seq<JsonView>,
    path: Seq<Seq<char>>,
    rest: Seq<Seq<char>>,
    params: Params,
    value: JsonView,
    list: Seq<JsonView>,
)
    requires
        walks(docs, path),
        rest.len() > 0,
        lacks_member(docs.last(), rest[0]),
    ensures
        holds(PredicateView::Present { path }, docs[0], params),
        !holds(PredicateView::Missing { path }, docs[0], params),
        holds(PredicateView::IsNull { path, negated: false }, docs[0], params) <==> docs.last()
            is Null,
        holds(PredicateView::IsNull { path, negated: true }, docs[0], params) <==> !(docs.last()
            is Null),
        !holds(PredicateView::Present { path: path + rest }, docs[0], params),
        holds(PredicateView::Missing { path: path + rest }, docs[0], params),
        !holds(PredicateView::IsNull { path: path + rest, negated: false }, docs[0], params),
        !holds(PredicateView::IsNull { path: path + rest, negated: true }, docs[0], params),
        !holds(path_with(CompareOp::Eq, path + rest, value), docs[0], params),
        !holds(path_with(CompareOp::Ne, path + rest, value), docs[0], params),
        holds(
            PredicateView::In { left: OperandView::Path { path }, list, negated: false },
            docs[0],
            params,
        ) <==> exists|i: int|
            0 <= i < list.len() && holds(
                path_with(CompareOp::Eq, path, #[trigger] list[i]),
                docs[0],
                params,
            ),
        holds(
            PredicateView::In { left: OperandView::Path { path }, list, negated: true },
            docs[0],
            params,
        ) <==> forall|i: int|
            0 <= i < list.len() ==> !holds(
                path_with(CompareOp::Eq, path, #[trigger] list[i]),
                docs[0],
                params,
            ),
        list.contains(docs.last()) ==> holds(
            PredicateView::In { left: OperandView::Path { path }, list, negated: false },
            docs[0],
            params,
        ),
        !holds(
            PredicateView::In {
                left: OperandView::Path { path: path + rest },
                list,
                negated: false,
            },
            docs[0],
            params,
        ),
        !holds(
            PredicateView::In { left: OperandView::Path { path: path + rest }, list, negated: true },
            docs[0],
            params,
        ),
{
    law_path_is_walked(docs, path, rest);
    law_json_same_reflexive(docs.last());
    assert forall|i: int| 0 <= i < list.len() implies json_same(docs.last(), #[trigger] list[i])
        == holds(path_with(CompareOp::Eq, path, list[i]), docs[0], params) by {}
    if list.contains(docs.last()) {
        let i = choose|i: int| 0 <= i < list.len() && list[i] == docs.last();
        assert(json_same(docs.last(), list[i]));
    }
}

proof fn lemma_all_evaluate(args: Seq<PredicateView>, doc: JsonView, params: Params)
    requires
        forall|i: int| 0 <= i < args.len() ==> evaluates(#[trigger] args[i], doc, params) is Ok,
    ensures
        all_evaluate(args, doc, params) == Ok::<bool, ErrorView>(
            forall|i: int| 0 <= i < args.len() ==> holds(#[trigger] args[i], doc, params),
        ),
        any_evaluates(args, doc, params) == Ok::<bool, ErrorView>(
            exists|i: int| 0 <= i < args.len() && holds(#[trigger] args[i], doc, params),
        ),
    decreases args.len(),
{
    if args.len() > 0 {
        let rest = args.drop_first();
        assert(evaluates(args[0], doc, params) is Ok);
        assert forall|i: int| 0 <= i < rest.len() implies evaluates(
            #[trigger] rest[i],
            doc,
            params,
        ) is Ok by {
            assert(rest[i] == args[i + 1]);
        }
        lemma_all_evaluate(rest, doc, params);
        if holds(args[0], doc, params) {
            if forall|i: int| 0 <= i < rest.len() ==> holds(#[trigger] rest[i], doc, params) {
                assert forall|i: int| 0 <= i < args.len() implies holds(
                    #[trigger] args[i],
                    doc,
                    params,
                ) by {
                    if i > 0 {
                        assert(rest[i - 1] == args[i]);
                    }
                }
            }
            if forall|i: int| 0 <= i < args.len() ==> holds(#[trigger] args[i], doc, params) {
                assert forall|i: int| 0 <= i < rest.len() implies holds(
                    #[trigger] rest[i],
                    doc,
                    params,
                ) by {
                    assert(rest[i] == args[i + 1]);
                }
            }
        } else {
            if exists|i: int| 0 <= i < args.len() && holds(#[trigger] args[i], doc, params) {
                let i = choose|i: int| 0 <= i < args.len() && holds(#[trigger] args[i], doc, params);
                assert(rest[i - 1] == args[i]);
            }
            if exists|i: int| 0 <= i < rest.len() && holds(#[trigger] rest[i], doc, params) {
                let i = choose|i: int| 0 <= i < rest.len() && holds(#[trigger] rest[i], doc, params);
                assert(args[i + 1] == rest[i]);
            }
        }
    }
}

/// Where its parts can all be evaluated, a conjunction holds exactly where all
/// of them hold, a disjunction where one does, and a negation where its part
/// does not.
pub proof fn law_predicates_combine(
    args: Seq<PredicateView>,
    p: PredicateView,
    doc: JsonView,
    params: Params,
)
    requires
        forall|i: int| 0 <= i < args.len() ==> evaluates(#[trigger] args[i], doc, params) is Ok,
        evaluates(p, doc, params) is Ok,
    ensures
        holds(PredicateView::True, doc, params),
        !holds(PredicateView::False, doc, params),
        holds(PredicateView::And { args }, doc, params) <==> forall|i: int|
            0 <= i < args.len() ==> holds(#[trigger] args[i], doc, params),
        holds(PredicateView::Or { args }, doc, params) <==> exists|i: int|
            0 <= i < args.len() && holds(#[trigger] args[i], doc, params),
        holds(PredicateView::Not { arg: Box::new(p) }, doc, params) <==> !holds(p, doc, params),
{
    lemma_all_evaluate(args, doc, params);
    let and = PredicateView::And { args };
    let or = PredicateView::Or { args };
    assert(evaluates(and, doc, params) == all_evaluate(and->And_args, doc, params));
    assert(evaluates(or, doc, params) == any_evaluates(or->Or_args, doc, params));
}

/// How a comparison is named in a plan.
pub open spec fn comparison_named(cmp: CompareOp) -> Seq<char> {
    match cmp {
        CompareOp::Eq => "eq"@,
        CompareOp::Ne => "ne"@,
        CompareOp::Lt => "lt"@,
        CompareOp::Lte => "lte"@,
        CompareOp::Gt => "gt"@,
        CompareOp::Gte => "gte"@,
    }
}

/// Names as a JSON array.
pub open spec fn names_json(path: Seq<Seq<char>>) -> JsonView {
    JsonView::Array(Seq::new(path.len(), |i: int| JsonView::Text(path[i])))
}

proof fn lemma_names_read(path: Seq<Seq<char>>)
    ensures
        segments_in(Seq::new(path.len(), |i: int| JsonView::Text(path[i]))) == Ok::<
            Seq<Seq<char>>,
            ErrorView,
        >(path),
    decreases path.len(),
{
    let items = Seq::new(path.len(), |i: int| JsonView::Text(path[i]));
    if path.len() == 0 {
        assert(path =~= Seq::empty());
    } else {
        let shorter = path.drop_last();
        lemma_names_read(shorter);
        assert(items.drop_last() =~= Seq::new(shorter.len(), |i: int| JsonView::Text(shorter[i])));
        assert(shorter.push(path.last()) =~= path);
    }
}

pub proof fn lemma_member(m: Seq<(Seq<char>, JsonView)>, name: Seq<char>, value: JsonView)
    ensures
        has_member(JsonView::Object(m), name, value) ==> lookup(m, name) == Some(value),
        lacks_member(JsonView::Object(m), name) ==> lookup(m, name) is None,
{
    let object = JsonView::Object(m);
    assert(object->Object_0 == m);
    if has_member(object, name, value) {
        let i = choose|i: int|
            0 <= i < m.len() && #[trigger] m[i] == (name, value) && forall|j: int|
                0 <= j < i ==> (#[trigger] m[j]).0 != name;
        lemma_first_member(m, name, i);
    }
    if lacks_member(object, name) {
        assert forall|j: int| 0 <= j < m.len() implies (#[trigger] m[j]).0 != name by {
            assert(object->Object_0[j].0 != name);
        }
        lemma_no_member(m, name);
    }
}

proof fn lemma_operator_names()
    ensures
        "eq"@.len() == 2 && "eq"@[0] == 'e',
        "ne"@.len() == 2 && "ne"@[0] == 'n',
        "lt"@.len() == 2 && "lt"@[0] == 'l',
        "lte"@.len() == 3 && "lte"@[0] == 'l',
        "gt"@.len() == 2 && "gt"@[0] == 'g',
        "gte"@.len() == 3 && "gte"@[0] == 'g',
        "and"@.len() == 3 && "and"@[0] == 'a',
        "or"@.len() == 2 && "or"@[0] == 'o',
        "not"@.len() == 3 && "not"@[0] == 'n',
        "in"@.len() == 2 && "in"@[0] == 'i',
        "true"@.len() == 4 && "true"@[0] == 't',
        "false"@.len() == 5 && "false"@[0] == 'f',
        "present"@.len() == 7 && "present"@[0] == 'p',
        "missing"@.len() == 7 && "missing"@[0] == 'm',
        "is_null"@.len() == 7 && "is_null"@[0] == 'i',
        "starts_with"@.len() == 11 && "starts_with"@[0] == 's',
        "contains"@.len() == 8 && "contains"@[0] == 'c',
{
    reveal_strlit("eq");
    reveal_strlit("ne");
    reveal_strlit("lt");
    reveal_strlit("lte");
    reveal_strlit("gt");
    reveal_strlit("gte");
    reveal_strlit("and");
    reveal_strlit("or");
    reveal_strlit("not");
    reveal_strlit("in");
    reveal_strlit("true");
    reveal_strlit("false");
    reveal_strlit("present");
    reveal_strlit("missing");
    reveal_strlit("is_null");
    reveal_strlit("starts_with");
    reveal_strlit("contains");
}

proof fn lemma_names_apart(cmp: CompareOp)
    ensures
        compare_op_named(comparison_named(cmp)) == Some(cmp),
        comparison_named(cmp) != "and"@ && comparison_named(cmp) != "or"@ && comparison_named(cmp)
            != "not"@ && comparison_named(cmp) != "true"@ && comparison_named(cmp) != "false"@,
{
    lemma_operator_names();
}

/// A plan object with a comparison, a path and a value is read as a predicate
/// that holds of a document with an integer at the path exactly where that
/// integer stands in the named relation to the value.
pub proof fn law_plan_object_compares_integers(
    object: JsonView,
    cmp: CompareOp,
    docs: Seq<JsonView>,
    path: Seq<Seq<char>>,
    params: Params,
    n: int,
    k: int,
)
    requires
        has_member(object, "op"@, JsonView::Text(comparison_named(cmp))),
        has_member(object, "path"@, names_json(path)),
        has_member(object, "value"@, whole(k)),
        lacks_member(object, "param"@),
        0 < path.len() <= MAX_PATH_SEGMENTS,
        walks(docs, path),
        docs.last() == whole(n),
        exact(n),
        exact(k),
    ensures
        predicate_in(object) is Ok,
        holds(predicate_in(object)->Ok_0, docs[0], params) <==> match cmp {
            CompareOp::Lt => n < k,
            CompareOp::Lte => n <= k,
            CompareOp::Gt => n > k,
            CompareOp::Gte => n >= k,
            CompareOp::Eq => n == k,
            CompareOp::Ne => n != k,
        },
{
    let m = object->Object_0;
    lemma_member(m, "op"@, JsonView::Text(comparison_named(cmp)));
    lemma_member(m, "path"@, names_json(path));
    lemma_member(m, "value"@, whole(k));
    lemma_member(m, "param"@, JsonView::Null);
    lemma_names_read(path);
    lemma_names_apart(cmp);
    assert(path_in(names_json(path)) == Ok::<Seq<Seq<char>>, ErrorView>(path));
    assert(predicate_in(object) == Ok::<PredicateView, ErrorView>(path_with(cmp, path, whole(k))));
    law_predicate_compares_integers(docs, path, params, Seq::empty(), n, k);
}

/// Plan objects are read for what their operators say of a path: that it is
/// there, that it is missing, that it is `null`, how its text begins and what
/// it contains.
pub proof fn law_plan_object_tests_paths(
    object: JsonView,
    op: Seq<char>,
    path: Seq<Seq<char>>,
    prefix: Seq<char>,
    needle: JsonView,
)
    requires
        has_member(object, "op"@, JsonView::Text(op)),
        has_member(object, "path"@, names_json(path)),
        has_member(object, "prefix"@, JsonView::Text(prefix)),
        has_member(object, "needle"@, needle),
        lacks_member(object, "negated"@),
        0 < path.len() <= MAX_PATH_SEGMENTS,
    ensures
        op == "present"@ ==> predicate_in(object) == Ok::<PredicateView, ErrorView>(
            PredicateView::Present { path },
        ),
        op == "missing"@ ==> predicate_in(object) == Ok::<PredicateView, ErrorView>(
            PredicateView::Missing { path },
        ),
        op == "is_null"@ ==> predicate_in(object) == Ok::<PredicateView, ErrorView>(
            PredicateView::IsNull { path, negated: false },
        ),
        op == "starts_with"@ ==> predicate_in(object) == Ok::<PredicateView, ErrorView>(
            PredicateView::StartsWith { path, prefix },
        ),
        op == "contains"@ ==> predicate_in(object) == Ok::<PredicateView, ErrorView>(
            PredicateView::Contains { path, needle },
        ),
        op == "true"@ ==> predicate_in(object) == Ok::<PredicateView, ErrorView>(
            PredicateView::True,
        ),
        op == "false"@ ==> predicate_in(object) == Ok::<PredicateView, ErrorView>(
            PredicateView::False,
        ),
{
    let m = object->Object_0;
    lemma_member(m, "op"@, JsonView::Text(op));
    lemma_member(m, "path"@, names_json(path));
    lemma_member(m, "prefix"@, JsonView::Text(prefix));
    lemma_member(m, "needle"@, needle);
    lemma_member(m, "negated"@, JsonView::Null);
    lemma_names_read(path);
    assert(path_in(names_json(path)) == Ok::<Seq<Seq<char>>, ErrorView>(path));
    lemma_operator_names();
}

/// The combining operators of a plan are read for what they say of their
/// parts.
pub proof fn law_plan_object_combines(
    object: JsonView,
    op: Seq<char>,
    items: Seq<JsonView>,
    args: Seq<PredicateView>,
    part: JsonView,
    arg: PredicateView,
)
    requires
        has_member(object, "op"@, JsonView::Text(op)),
        has_member(object, "args"@, JsonView::Array(items)),
        has_member(object, "arg"@, part),
        predicates_in(items) == Ok::<Seq<PredicateView>, ErrorView>(args),
        predicate_in(part) == Ok::<PredicateView, ErrorView>(arg),
    ensures
        op == "and"@ ==> predicate_in(object) == Ok::<PredicateView, ErrorView>(
            PredicateView::And { args },
        ),
        op == "or"@ ==> predicate_in(object) == Ok::<PredicateView, ErrorView>(
            PredicateView::Or { args },
        ),
        op == "not"@ ==> predicate_in(object) == Ok::<PredicateView, ErrorView>(
            PredicateView::Not { arg: Box::new(arg) },
        ),
{
    let m = object->Object_0;
    lemma_member(m, "op"@, JsonView::Text(op));
    lemma_member(m, "args"@, JsonView::Array(items));
    lemma_member(m, "arg"@, part);
    lemma_operator_names();
}

/// Rows are sorted by integers as the integers are, and by texts as the texts
/// are; false comes before true, and a row without the field before one with
/// it. Descending is the other way round.
pub proof fn law_sort_order_goes_by_values(
    a: JsonView,
    b: JsonView,
    name: Seq<char>,
    x: JsonView,
    y: JsonView,
)
    requires
        plain_name(name),
        has_member(a, name, x),
        has_member(b, name, y),
    ensures
        forall|n: int, k: int|
            x == #[trigger] whole(n) && y == #[trigger] whole(k) && exact(n) && exact(k) ==> {
                &&& field_order(a, b, name, SortOrder::Asc) == Order::Less <==> n < k
                &&& field_order(a, b, name, SortOrder::Asc) == Order::Greater <==> n > k
                &&& field_order(a, b, name, SortOrder::Desc) == Order::Less <==> n > k
                &&& field_order(a, b, name, SortOrder::Desc) == Order::Greater <==> n < k
            },
        x is Text && y is Text ==> {
            &&& field_order(a, b, name, SortOrder::Asc) == Order::Less <==> before(
                x->Text_0,
                y->Text_0,
            )
            &&& field_order(a, b, name, SortOrder::Asc) == Order::Greater <==> before(
                y->Text_0,
                x->Text_0,
            )
            &&& field_order(a, b, name, SortOrder::Desc) == Order::Less <==> before(
                y->Text_0,
                x->Text_0,
            )
            &&& field_order(a, b, name, SortOrder::Desc) == Order::Greater <==> before(
                x->Text_0,
                y->Text_0,
            )
        },
        x == JsonView::Bool(false) && y == JsonView::Bool(true) ==> {
            &&& field_order(a, b, name, SortOrder::Asc) == Order::Less
            &&& field_order(a, b, name, SortOrder::Desc) == Order::Greater
            &&& field_order(b, a, name, SortOrder::Asc) == Order::Greater
            &&& field_order(b, a, name, SortOrder::Desc) == Order::Less
        },
{
    law_name_leads_to_its_member(a, name, x);
    law_name_leads_to_its_member(b, name, y);
    assert forall|n: int, k: int|
        x == #[trigger] whole(n) && y == #[trigger] whole(k) && exact(n) && exact(k) implies {
        &&& field_order(a, b, name, SortOrder::Asc) == Order::Less <==> n < k
        &&& field_order(a, b, name, SortOrder::Asc) == Order::Greater <==> n > k
        &&& field_order(a, b, name, SortOrder::Desc) == Order::Less <==> n > k
        &&& field_order(a, b, name, SortOrder::Desc) == Order::Greater <==> n < k
    } by {
        assert(exact_integer(whole(n)->Number_0) == Some(n));
        assert(exact_integer(whole(k)->Number_0) == Some(k));
    }
    if x is Text && y is Text {
        law_texts_are_ordered(x->Text_0, y->Text_0);
    }
}

/// A row without the field comes first where rows ascend and last where they
/// descend.
pub proof fn law_absent_fields_sort_first(a: JsonView, b: JsonView, name: Seq<char>, y: JsonView)
    requires
        plain_name(name),
        lacks_member(a, name),
        has_member(b, name, y),
    ensures
        field_order(a, b, name, SortOrder::Asc) == Order::Less,
        field_order(a, b, name, SortOrder::Desc) == Order::Greater,
        field_order(b, a, name, SortOrder::Asc) == Order::Greater,
        field_order(b, a, name, SortOrder::Desc) == Order::Less,
{
    law_name_leads_to_its_member(a, name, y);
    law_name_leads_to_its_member(b, name, y);
}

/// Arrays are equal where their elements are, one for one, and objects where
/// their members are; values of different kinds are unequal, and integers are
/// equal where they are the same.
pub proof fn law_equality_goes_into_values(
    a: Seq<JsonView>,
    b: Seq<JsonView>,
    m: Seq<(Seq<char>, JsonView)>,
    o: Seq<(Seq<char>, JsonView)>,
    n: int,
    k: int,
)
    requires
        exact(n),
        exact(k),
    ensures
        json_same(JsonView::Array(a), JsonView::Array(b)) <==> a.len() == b.len() && forall|i: int|
            0 <= i < a.len() ==> json_same(#[trigger] a[i], b[i]),
        json_same(JsonView::Object(m), JsonView::Object(o)) <==> m.len() == o.len() && forall|
            i: int,
        |
            0 <= i < m.len() ==> (#[trigger] m[i]).0 == o[i].0 && json_same(m[i].1, o[i].1),
        json_same(whole(n), whole(k)) <==> n == k,
        !json_same(JsonView::Array(a), JsonView::Object(m)),
        !json_same(JsonView::Object(m), JsonView::Array(a)),
        !json_same(whole(n), JsonView::Array(a)),
        !json_same(whole(n), JsonView::Object(m)),
        !json_same(JsonView::Array(a), whole(n)),
        !json_same(JsonView::Object(m), whole(n)),
{
    let (x, y) = (JsonView::Array(a), JsonView::Array(b));
    assert(x->Array_0 == a && y->Array_0 == b);
    assert(json_same(x, y) <==> x->Array_0.len() == y->Array_0.len() && forall|i: int|
        0 <= i < x->Array_0.len() ==> json_same(#[trigger] x->Array_0[i], y->Array_0[i]));
    let (p, q) = (JsonView::Object(m), JsonView::Object(o));
    assert(p->Object_0 == m && q->Object_0 == o);
    assert(json_same(p, q) <==> p->Object_0.len() == q->Object_0.len() && forall|i: int|
        0 <= i < p->Object_0.len() ==> (#[trigger] p->Object_0[i]).0 == q->Object_0[i].0
            && json_same(p->Object_0[i].1, q->Object_0[i].1));
}

} // verus!
