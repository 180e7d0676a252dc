//! What joins mean, stated on the documents of the sources and the values of
//! their fields.
//!
//! A choice names one document of each source by its place. The rows of a join
//! are those of the choices whose documents hold equal values in the joined
//! fields: every such choice gives one row, no other does, and the rows stand
//! in the order of the choices.
use crate::filter::field_value;
use crate::json::{law_lookup_with_member, lookup, with_member, JsonView};
use crate::json_text::json_text;
use crate::multi_query::{
    field_key, joined_rows, key_text, law_join_key_tells_values_apart, namespaced, query_result,
    repeated_alias, row_joined, rows_joined, seeded, JoinView, MultiQueryView, RowMembers,
    SourceView,
};
use vstd::prelude::*;

verus! {

/// Values that a join takes for the same: equal ones, and numbers, or arrays
/// and objects, that are written alike.
pub open spec fn same_join_value(x: JsonView, y: JsonView) -> bool {
    ||| x == y
    ||| x is Number && y is Number && json_text(x) == json_text(y)
    ||| (x is Array || x is Object) && (y is Array || y is Object) && json_text(x) == json_text(y)
}

/// Values are joined exactly where they are the same. In particular a text is
/// joined to that same text and to nothing else.
pub proof fn law_join_keys_are_by_value(x: JsonView, y: JsonView)
    ensures
        key_text(x) == key_text(y) <==> same_join_value(x, y),
        x is Text ==> (key_text(x) == key_text(y) <==> x == y),
{
    if key_text(x) == key_text(y) {
        law_join_key_tells_values_apart(x, y);
        if x is Number {
            assert(json_text(x) =~= key_text(x).skip("n:"@.len() as int));
            assert(json_text(y) =~= key_text(y).skip("n:"@.len() as int));
        }
        if x is Array || x is Object {
            assert(json_text(x) =~= key_text(x).skip("j:"@.len() as int));
            assert(json_text(y) =~= key_text(y).skip("j:"@.len() as int));
        }
    }
}

/// A document of a field value takes part in a join, whatever the value is: it
/// is left out only where the field is not there.
pub proof fn law_only_absent_fields_are_left_out(doc: JsonView, field: Seq<char>)
    ensures
        field_key(doc, field) is None <==> field_value(doc, field) is None,
{
}

/// The documents of the sources, each with its key.
pub type Loaded = Seq<Seq<(Seq<char>, JsonView)>>;

/// A document as it stands in a joined row: as it is, or with its key.
pub open spec fn shown(q: MultiQueryView, loaded: Loaded, choice: Seq<int>, s: int) -> JsonView {
    namespaced(loaded[s][choice[s]].1, loaded[s][choice[s]].0, q.include_keys)
}

/// A document carries its key under `_key` where keys are asked for: beside its
/// other members where it is an object, else with the document under `_value`.
pub proof fn law_document_carries_its_key(doc: JsonView, key: Seq<char>, other: Seq<char>)
    ensures
        namespaced(doc, key, false) == doc,
        namespaced(doc, key, true) is Object,
        lookup(namespaced(doc, key, true)->Object_0, "_key"@) == Some(JsonView::Text(key)),
        doc is Object && other != "_key"@ ==> lookup(namespaced(doc, key, true)->Object_0, other)
            == lookup(doc->Object_0, other),
        !(doc is Object) ==> lookup(namespaced(doc, key, true)->Object_0, "_value"@) == Some(doc),
        !(doc is Object) && other != "_key"@ && other != "_value"@ ==> lookup(
            namespaced(doc, key, true)->Object_0,
            other,
        ) is None,
{
    reveal_strlit("_key");
    reveal_strlit("_value");
    assert("_key"@.len() != "_value"@.len());
    let text = JsonView::Text(key);
    let none = Seq::<(Seq<char>, JsonView)>::empty();
    match doc {
        JsonView::Object(m) => {
            law_lookup_with_member(m, "_key"@, text, "_key"@);
            law_lookup_with_member(m, "_key"@, text, other);
        },
        _ => {
            let first = with_member(none, "_key"@, text);
            law_lookup_with_member(none, "_key"@, text, "_key"@);
            law_lookup_with_member(none, "_key"@, text, other);
            law_lookup_with_member(first, "_value"@, doc, "_key"@);
            law_lookup_with_member(first, "_value"@, doc, "_value"@);
            law_lookup_with_member(first, "_value"@, doc, other);
        },
    }
}

/// A choice names a document of each of its sources.
pub open spec fn names_documents(loaded: Loaded, choice: Seq<int>) -> bool {
    forall|s: int| 0 <= s < choice.len() ==> 0 <= #[trigger] choice[s] < loaded[s].len()
}

/// The documents of a choice agree on a join: the field of the left source and
/// the field of the right one are both there and hold the same value.
pub open spec fn agrees(q: MultiQueryView, loaded: Loaded, choice: Seq<int>, k: int, s: int) -> bool {
    let left = field_value(shown(q, loaded, choice, s), q.joins[k].left_field);
    let right = field_value(loaded[k + 1][choice[k + 1]].1, q.joins[k].right_field);
    &&& q.sources[s].alias == q.joins[k].left_alias
    &&& left is Some && right is Some && same_join_value(left->0, right->0)
}

/// The documents of a choice agree on a join, whichever source its left side
/// names.
pub open spec fn agrees_on(q: MultiQueryView, loaded: Loaded, choice: Seq<int>, k: int) -> bool {
    exists|s: int| 0 <= s <= k && #[trigger] agrees(q, loaded, choice, k, s)
}

/// The documents of a choice agree on every join between them.
pub open spec fn matching(q: MultiQueryView, loaded: Loaded, choice: Seq<int>) -> bool {
    &&& names_documents(loaded, choice)
    &&& forall|k: int| 0 <= k < choice.len() - 1 ==> #[trigger] agrees_on(q, loaded, choice, k)
}

/// A row shows a choice: under the alias of each source its document, and
/// nothing else.
pub open spec fn shows(
    row: RowMembers,
    q: MultiQueryView,
    loaded: Loaded,
    choice: Seq<int>,
) -> bool {
    &&& row.len() == choice.len()
    &&& forall|s: int|
        0 <= s < choice.len() ==> lookup(row, (#[trigger] q.sources[s]).alias) == Some(
            shown(q, loaded, choice, s),
        )
}

/// A choice stands before another: it has the earlier document in the first
/// source where they differ.
pub open spec fn earlier(a: Seq<int>, b: Seq<int>) -> bool {
    exists|s: int|
        {
            &&& 0 <= s < a.len() && s < b.len()
            &&& #[trigger] a.take(s) == b.take(s)
            &&& a[s] < b[s]
        }
}

/// Choices are all the matching ones of the first `n` sources, each once, in
/// their order.
pub open spec fn lists_matching(
    q: MultiQueryView,
    loaded: Loaded,
    n: int,
    choices: Seq<Seq<int>>,
) -> bool {
    &&& forall|i: int|
        0 <= i < choices.len() ==> (#[trigger] choices[i]).len() == n && matching(
            q,
            loaded,
            choices[i],
        )
    &&& forall|choice: Seq<int>|
        choice.len() == n && #[trigger] matching(q, loaded, choice) ==> choices.contains(choice)
    &&& forall|i: int, j: int|
        0 <= i < j < choices.len() ==> earlier(#[trigger] choices[i], #[trigger] choices[j])
}

/// No two sources have one alias.
pub open spec fn distinct_aliases(sources: Seq<SourceView>) -> bool {
    forall|i: int, j: int|
        0 <= i < j < sources.len() ==> (#[trigger] sources[i]).alias != (
        #[trigger] sources[j]).alias
}

/// Aliases are refused exactly where two are one.
pub proof fn law_aliases_are_distinct(sources: Seq<SourceView>)
    ensures
        repeated_alias(sources) is None <==> distinct_aliases(sources),
    decreases sources.len(),
{
    if sources.len() > 0 {
        let shorter = sources.drop_last();
        let n = sources.len() - 1;
        law_aliases_are_distinct(shorter);
        if repeated_alias(sources) is None {
            assert forall|i: int, j: int| 0 <= i < j < sources.len() implies (
            #[trigger] sources[i]).alias != (#[trigger] sources[j]).alias by {
                if j < n {
                    assert(shorter[i] == sources[i] && shorter[j] == sources[j]);
                }
            }
        }
        if distinct_aliases(sources) {
            assert forall|i: int, j: int| 0 <= i < j < shorter.len() implies (
            #[trigger] shorter[i]).alias != (#[trigger] shorter[j]).alias by {
                assert(sources[i].alias != sources[j].alias);
            }
            assert forall|i: int| 0 <= i < n implies (#[trigger] sources[i]).alias
                != sources.last().alias by {
                assert(sources[i].alias != sources[n].alias);
            }
        }
    }
}

/// The row of a choice.
spec fn built(q: MultiQueryView, loaded: Loaded, choice: Seq<int>) -> RowMembers
    decreases choice.len(),
{
    if choice.len() == 0 {
        Seq::empty()
    } else {
        with_member(
            built(q, loaded, choice.drop_last()),
            q.sources[choice.len() - 1].alias,
            shown(q, loaded, choice, choice.len() - 1),
        )
    }
}

proof fn lemma_with_new_member(m: RowMembers, key: Seq<char>, value: JsonView)
    requires
        lookup(m, key) is None,
    ensures
        with_member(m, key, value).len() == m.len() + 1,
    decreases m.len(),
{
    if m.len() > 0 {
        crate::text::lemma_text_order_equal(key, m[0].0);
        lemma_with_new_member(m.drop_first(), key, value);
    }
}

proof fn lemma_built(q: MultiQueryView, loaded: Loaded, choice: Seq<int>)
    requires
        choice.len() <= q.sources.len(),
        distinct_aliases(q.sources),
    ensures
        shows(built(q, loaded, choice), q, loaded, choice),
        forall|alias: Seq<char>|
            (forall|s: int| 0 <= s < choice.len() ==> (#[trigger] q.sources[s]).alias != alias)
                ==> #[trigger] lookup(built(q, loaded, choice), alias) is None,
    decreases choice.len(),
{
    if choice.len() > 0 {
        let n = choice.len() - 1;
        let shorter = choice.drop_last();
        let m = built(q, loaded, shorter);
        let alias = q.sources[n].alias;
        let value = shown(q, loaded, choice, n);
        lemma_built(q, loaded, shorter);
        assert forall|s: int| 0 <= s < shorter.len() implies (#[trigger] q.sources[s]).alias
            != alias by {
            assert(q.sources[s].alias != q.sources[n].alias);
        }
        assert(lookup(m, alias) is None);
        lemma_with_new_member(m, alias, value);
        assert forall|s: int| 0 <= s < choice.len() implies lookup(
            built(q, loaded, choice),
            (#[trigger] q.sources[s]).alias,
        ) == Some(shown(q, loaded, choice, s)) by {
            law_lookup_with_member(m, alias, value, q.sources[s].alias);
            if s < n {
                assert(shorter[s] == choice[s]);
                assert(q.sources[s].alias != alias);
            }
        }
        assert forall|other: Seq<char>|
            (forall|s: int| 0 <= s < choice.len() ==> (#[trigger] q.sources[s]).alias != other)
            implies #[trigger] lookup(built(q, loaded, choice), other) is None by {
            assert(q.sources[n].alias != other);
            law_lookup_with_member(m, alias, value, other);
        }
    }
}

/// The documents of a left row and a right one are joined.
spec fn pairs_up(left: RowMembers, right: JsonView, join: JoinView) -> bool {
    match lookup(left, join.left_alias) {
        Some(doc) => field_key(doc, join.left_field) is Some && field_key(doc, join.left_field)
            == field_key(right, join.right_field),
        None => false,
    }
}

/// Places of documents that have a key, in order.
spec fn lists_places(
    places: Seq<int>,
    key: Seq<char>,
    rights: Seq<(Seq<char>, JsonView)>,
    right_field: Seq<char>,
) -> bool {
    &&& forall|i: int|
        0 <= i < places.len() ==> 0 <= #[trigger] places[i] < rights.len() && field_key(
            rights[places[i]].1,
            right_field,
        ) == Some(key)
    &&& forall|j: int|
        0 <= j < rights.len() && field_key((#[trigger] rights[j]).1, right_field) == Some(key)
            ==> places.contains(j)
    &&& forall|i: int, j: int|
        0 <= i < j < places.len() ==> #[trigger] places[i] < #[trigger] places[j]
}

proof fn lemma_row(
    left: RowMembers,
    key: Seq<char>,
    rights: Seq<(Seq<char>, JsonView)>,
    right_field: Seq<char>,
    right_alias: Seq<char>,
    include_keys: bool,
) -> (places: Seq<int>)
    ensures
        lists_places(places, key, rights, right_field),
        ({
            let rows = row_joined(left, key, rights, right_field, right_alias, include_keys);
            &&& rows.len() == places.len()
            &&& forall|i: int|
                0 <= i < rows.len() ==> #[trigger] rows[i] == with_member(
                    left,
                    right_alias,
                    namespaced(rights[places[i]].1, rights[places[i]].0, include_keys),
                )
        }),
    decreases rights.len(),
{
    let rows = row_joined(left, key, rights, right_field, right_alias, include_keys);
    if rights.len() == 0 {
        Seq::empty()
    } else {
        let shorter = rights.drop_last();
        let last = rights.len() - 1;
        let before = row_joined(left, key, shorter, right_field, right_alias, include_keys);
        let places = lemma_row(left, key, shorter, right_field, right_alias, include_keys);
        assert forall|i: int| 0 <= i < places.len() implies 0 <= #[trigger] places[i] < last
            && rights[places[i]] == shorter[places[i]] by {}
        if field_key(rights[last].1, right_field) == Some(key) {
            let all = places.push(last);
            assert forall|j: int|
                0 <= j < rights.len() && field_key((#[trigger] rights[j]).1, right_field) == Some(
                    key,
                ) implies all.contains(j) by {
                if j < last {
                    assert(shorter[j] == rights[j]);
                    let i = choose|i: int| 0 <= i < places.len() && places[i] == j;
                    assert(all[i] == j);
                } else {
                    assert(all[places.len() as int] == j);
                }
            }
            assert forall|i: int| 0 <= i < rows.len() implies #[trigger] rows[i] == with_member(
                left,
                right_alias,
                namespaced(rights[all[i]].1, rights[all[i]].0, include_keys),
            ) by {
                if i < before.len() {
                    assert(rows[i] == before[i]);
                    assert(all[i] == places[i]);
                }
            }
            all
        } else {
            assert forall|j: int|
                0 <= j < rights.len() && field_key((#[trigger] rights[j]).1, right_field) == Some(
                    key,
                ) implies places.contains(j) by {
                assert(shorter[j] == rights[j]);
            }
            places
        }
    }
}

/// Pairs of a left row and a right document that are joined, in order.
spec fn lists_pairs(
    pairs: Seq<(int, int)>,
    lefts: Seq<RowMembers>,
    join: JoinView,
    rights: Seq<(Seq<char>, JsonView)>,
) -> bool {
    &&& forall|i: int|
        0 <= i < pairs.len() ==> 0 <= (#[trigger] pairs[i]).0 < lefts.len() && 0 <= pairs[i].1
            < rights.len() && pairs_up(lefts[pairs[i].0], rights[pairs[i].1].1, join)
    &&& forall|a: int, j: int|
        0 <= a < lefts.len() && 0 <= j < rights.len() && #[trigger] pairs_up(
            lefts[a],
            rights[j].1,
            join,
        ) ==> pairs.contains((a, j))
    &&& forall|i: int, j: int|
        0 <= i < j < pairs.len() ==> (#[trigger] pairs[i]).0 < (#[trigger] pairs[j]).0 || (
        pairs[i].0 == pairs[j].0 && pairs[i].1 < pairs[j].1)
}

proof fn lemma_rows(
    lefts: Seq<RowMembers>,
    join: JoinView,
    rights: Seq<(Seq<char>, JsonView)>,
    right_alias: Seq<char>,
    include_keys: bool,
) -> (pairs: Seq<(int, int)>)
    ensures
        rows_joined(lefts, join, rights, right_alias, include_keys) is Ok <==> forall|a: int|
            0 <= a < lefts.len() ==> lookup(#[trigger] lefts[a], join.left_alias) is Some,
        rows_joined(lefts, join, rights, right_alias, include_keys) is Ok ==> {
            let rows = rows_joined(lefts, join, rights, right_alias, include_keys)->Ok_0;
            &&& lists_pairs(pairs, lefts, join, rights)
            &&& rows.len() == pairs.len()
            &&& forall|i: int|
                0 <= i < rows.len() ==> #[trigger] rows[i] == with_member(
                    lefts[pairs[i].0],
                    right_alias,
                    namespaced(rights[pairs[i].1].1, rights[pairs[i].1].0, include_keys),
                )
        },
    decreases lefts.len(),
{
    if lefts.len() == 0 {
        Seq::empty()
    } else {
        let shorter = lefts.drop_last();
        let last = lefts.len() - 1;
        let pairs = lemma_rows(shorter, join, rights, right_alias, include_keys);
        let whole = rows_joined(lefts, join, rights, right_alias, include_keys);
        let part = rows_joined(shorter, join, rights, right_alias, include_keys);
        assert forall|a: int| 0 <= a < shorter.len() implies lefts[a] == #[trigger] shorter[a] by {}
        if whole is Ok {
            assert forall|a: int| 0 <= a < lefts.len() implies lookup(
                #[trigger] lefts[a],
                join.left_alias,
            ) is Some by {
                if a < last {
                    assert(shorter[a] == lefts[a]);
                }
            }
        }
        if forall|a: int|
            0 <= a < lefts.len() ==> lookup(#[trigger] lefts[a], join.left_alias) is Some {
            assert forall|a: int| 0 <= a < shorter.len() implies lookup(
                #[trigger] shorter[a],
                join.left_alias,
            ) is Some by {
                assert(shorter[a] == lefts[a]);
            }
            assert(lookup(lefts[last], join.left_alias) is Some);
        }
        if whole is Ok {
            let doc = lookup(lefts[last], join.left_alias)->0;
            let key = field_key(doc, join.left_field);
            let places = if key is Some {
                lemma_row(
                    lefts[last],
                    key->0,
                    rights,
                    join.right_field,
                    right_alias,
                    include_keys,
                )
            } else {
                Seq::empty()
            };
            let more = Seq::new(places.len(), |i: int| (last, places[i]));
            let all = pairs + more;
            let before = part->Ok_0;
            let rows = whole->Ok_0;
            assert(rows.len() == all.len());
            assert forall|i: int| 0 <= i < rows.len() implies #[trigger] rows[i] == with_member(
                lefts[all[i].0],
                right_alias,
                namespaced(rights[all[i].1].1, rights[all[i].1].0, include_keys),
            ) by {
                if i < before.len() {
                    assert(rows[i] == before[i]);
                    assert(all[i] == pairs[i]);
                    assert(shorter[pairs[i].0] == lefts[pairs[i].0]);
                } else {
                    assert(all[i] == more[i - before.len()]);
                }
            }
            assert forall|i: int| 0 <= i < all.len() implies 0 <= (#[trigger] all[i]).0
                < lefts.len() && 0 <= all[i].1 < rights.len() && pairs_up(
                lefts[all[i].0],
                rights[all[i].1].1,
                join,
            ) by {
                if i < pairs.len() {
                    assert(all[i] == pairs[i]);
                    assert(shorter[pairs[i].0] == lefts[pairs[i].0]);
                } else {
                    assert(all[i] == more[i - pairs.len()]);
                    assert(0 <= places[i - pairs.len()] < rights.len());
                }
            }
            assert forall|a: int, j: int|
                0 <= a < lefts.len() && 0 <= j < rights.len() && #[trigger] pairs_up(
                    lefts[a],
                    rights[j].1,
                    join,
                ) implies all.contains((a, j)) by {
                if a < last {
                    assert(pairs_up(shorter[a], rights[j].1, join));
                    let i = choose|i: int| 0 <= i < pairs.len() && pairs[i] == (a, j);
                    assert(all[i] == (a, j));
                } else {
                    assert(field_key(rights[j].1, join.right_field) == Some(key->0));
                    assert(places.contains(j));
                    let i = choose|i: int| 0 <= i < places.len() && places[i] == j;
                    assert(more[i] == (a, j));
                    assert(all[pairs.len() + i] == (a, j));
                }
            }
            assert forall|i: int, j: int| 0 <= i < j < all.len() implies (#[trigger] all[i]).0 < (
            #[trigger] all[j]).0 || (all[i].0 == all[j].0 && all[i].1 < all[j].1) by {
                if j < pairs.len() {
                    assert(all[i] == pairs[i] && all[j] == pairs[j]);
                } else if i < pairs.len() {
                    assert(all[i] == pairs[i] && all[j] == more[j - pairs.len()]);
                    assert(pairs[i].0 < shorter.len());
                } else {
                    assert(all[i] == more[i - pairs.len()] && all[j] == more[j - pairs.len()]);
                    assert(places[i - pairs.len()] < places[j - pairs.len()]);
                }
            }
            all
        } else {
            pairs
        }
    }
}

proof fn lemma_agrees_before(q: MultiQueryView, loaded: Loaded, c: Seq<int>, j: int, k: int)
    requires
        0 <= k < c.len() - 1,
    ensures
        agrees_on(q, loaded, c.push(j), k) <==> agrees_on(q, loaded, c, k),
{
    let d = c.push(j);
    assert forall|s: int| 0 <= s <= k implies agrees(q, loaded, d, k, s) == agrees(
        q,
        loaded,
        c,
        k,
        s,
    ) by {
        assert(d[s] == c[s] && d[k + 1] == c[k + 1]);
    }
    if agrees_on(q, loaded, d, k) {
        let s = choose|s: int| 0 <= s <= k && #[trigger] agrees(q, loaded, d, k, s);
        assert(agrees(q, loaded, c, k, s));
    }
    if agrees_on(q, loaded, c, k) {
        let s = choose|s: int| 0 <= s <= k && #[trigger] agrees(q, loaded, c, k, s);
        assert(agrees(q, loaded, d, k, s));
    }
}

proof fn lemma_agrees_last(q: MultiQueryView, loaded: Loaded, c: Seq<int>, j: int)
    requires
        0 < c.len() <= q.sources.len(),
        distinct_aliases(q.sources),
    ensures
        agrees_on(q, loaded, c.push(j), c.len() - 1) <==> pairs_up(
            built(q, loaded, c),
            loaded[c.len() as int][j].1,
            q.joins[c.len() - 1],
        ),
{
    let d = c.push(j);
    let k = c.len() - 1;
    let join = q.joins[k];
    lemma_built(q, loaded, c);
    let row = built(q, loaded, c);
    if exists|s: int| 0 <= s <= k && (#[trigger] q.sources[s]).alias == join.left_alias {
        let s = choose|s: int| 0 <= s <= k && (#[trigger] q.sources[s]).alias == join.left_alias;
        assert(lookup(row, q.sources[s].alias) == Some(shown(q, loaded, c, s)));
        assert(d[s] == c[s]);
        let x = field_value(shown(q, loaded, c, s), join.left_field);
        let y = field_value(loaded[k + 1][j].1, join.right_field);
        if x is Some && y is Some {
            law_join_keys_are_by_value(x->0, y->0);
        }
        assert(agrees(q, loaded, d, k, s) == pairs_up(row, loaded[k + 1][j].1, join));
        assert forall|t: int| 0 <= t <= k && t != s implies !agrees(q, loaded, d, k, t) by {
            assert(q.sources[t].alias != q.sources[s].alias);
        }
    } else {
        assert(lookup(row, join.left_alias) is None);
        assert forall|t: int| 0 <= t <= k implies !agrees(q, loaded, d, k, t) by {
            assert(q.sources[t].alias != join.left_alias);
        }
    }
}

proof fn lemma_extends(q: MultiQueryView, loaded: Loaded, c: Seq<int>, j: int)
    requires
        0 < c.len() <= q.sources.len(),
        distinct_aliases(q.sources),
    ensures
        matching(q, loaded, c.push(j)) <==> (matching(q, loaded, c) && 0 <= j
            < loaded[c.len() as int].len() && pairs_up(
            built(q, loaded, c),
            loaded[c.len() as int][j].1,
            q.joins[c.len() - 1],
        )),
{
    let d = c.push(j);
    let n = c.len() as int;
    lemma_agrees_last(q, loaded, c, j);
    if matching(q, loaded, d) {
        assert forall|s: int| 0 <= s < c.len() implies 0 <= #[trigger] c[s] < loaded[s].len() by {
            assert(d[s] == c[s]);
        }
        assert forall|k: int| 0 <= k < c.len() - 1 implies #[trigger] agrees_on(q, loaded, c, k) by {
            lemma_agrees_before(q, loaded, c, j, k);
            assert(agrees_on(q, loaded, d, k));
        }
        assert(0 <= d[n] < loaded[n].len());
        assert(agrees_on(q, loaded, d, n - 1));
    }
    if matching(q, loaded, c) && 0 <= j < loaded[n].len() && agrees_on(q, loaded, d, n - 1) {
        assert forall|s: int| 0 <= s < d.len() implies 0 <= #[trigger] d[s] < loaded[s].len() by {
            if s < n {
                assert(d[s] == c[s]);
            }
        }
        assert forall|k: int| 0 <= k < d.len() - 1 implies #[trigger] agrees_on(q, loaded, d, k) by {
            if k < n - 1 {
                lemma_agrees_before(q, loaded, c, j, k);
                assert(agrees_on(q, loaded, c, k));
            }
        }
    }
}

proof fn lemma_earlier_push(a: Seq<int>, b: Seq<int>, x: int, y: int)
    requires
        earlier(a, b) || (a == b && x < y),
    ensures
        earlier(a.push(x), b.push(y)),
{
    if earlier(a, b) {
        let s = choose|s: int|
            {
                &&& 0 <= s < a.len() && s < b.len()
                &&& #[trigger] a.take(s) == b.take(s)
                &&& a[s] < b[s]
            };
        assert(a.push(x).take(s) =~= a.take(s));
        assert(b.push(y).take(s) =~= b.take(s));
    } else {
        let n = a.len() as int;
        assert(a.push(x).take(n) =~= a);
        assert(b.push(y).take(n) =~= b);
    }
}

proof fn lemma_seeded(q: MultiQueryView, loaded: Loaded) -> (choices: Seq<Seq<int>>)
    requires
        q.sources.len() > 0,
    ensures
        lists_matching(q, loaded, 1, choices),
        seeded(loaded[0], q.sources[0].alias, q.include_keys).len() == choices.len(),
        forall|i: int|
            0 <= i < choices.len() ==> seeded(
                loaded[0],
                q.sources[0].alias,
                q.include_keys,
            )[i] == built(q, loaded, #[trigger] choices[i]),
{
    let choices = Seq::new(loaded[0].len(), |i: int| seq![i]);
    assert forall|i: int| 0 <= i < choices.len() implies seeded(
        loaded[0],
        q.sources[0].alias,
        q.include_keys,
    )[i] == built(q, loaded, #[trigger] choices[i]) by {
        assert(choices[i].drop_last() =~= Seq::<int>::empty());
        assert(built(q, loaded, choices[i].drop_last()) == Seq::<(Seq<char>, JsonView)>::empty());
    }
    assert forall|choice: Seq<int>|
        choice.len() == 1 && #[trigger] matching(q, loaded, choice) implies choices.contains(
        choice,
    ) by {
        assert(0 <= choice[0] < loaded[0].len());
        assert(choices[choice[0]] =~= choice);
    }
    assert forall|i: int, j: int| 0 <= i < j < choices.len() implies earlier(
        #[trigger] choices[i],
        #[trigger] choices[j],
    ) by {
        assert(choices[i].take(0) =~= choices[j].take(0));
    }
    choices
}

proof fn lemma_joined(q: MultiQueryView, loaded: Loaded, n: nat) -> (choices: Seq<Seq<int>>)
    requires
        n < q.sources.len(),
        distinct_aliases(q.sources),
    ensures
        joined_rows(q, loaded, n) is Ok ==> {
            let rows = joined_rows(q, loaded, n)->Ok_0;
            &&& lists_matching(q, loaded, (n + 1) as int, choices)
            &&& rows.len() == choices.len()
            &&& forall|i: int|
                0 <= i < rows.len() ==> #[trigger] rows[i] == built(q, loaded, choices[i])
        },
    decreases n,
{
    if n == 0 {
        let choices = lemma_seeded(q, loaded);
        let rows = joined_rows(q, loaded, 0)->Ok_0;
        assert forall|i: int| 0 <= i < rows.len() implies #[trigger] rows[i] == built(
            q,
            loaded,
            choices[i],
        ) by {
            assert(choices[i].len() == 1);
        }
        choices
    } else {
        let before = lemma_joined(q, loaded, (n - 1) as nat);
        let join = q.joins[n - 1];
        let rights = loaded[n as int];
        let alias = q.sources[n as int].alias;
        if joined_rows(q, loaded, n) is Ok {
            let lefts = joined_rows(q, loaded, (n - 1) as nat)->Ok_0;
            let rows = joined_rows(q, loaded, n)->Ok_0;
            let pairs = lemma_rows(lefts, join, rights, alias, q.include_keys);
            let choices = Seq::new(pairs.len(), |i: int| before[pairs[i].0].push(pairs[i].1));
            assert forall|i: int| 0 <= i < choices.len() implies (#[trigger] choices[i]).len()
                == n + 1 && matching(q, loaded, choices[i]) by {
                let (a, j) = pairs[i];
                assert(lefts[a] == built(q, loaded, before[a]));
                assert(before[a].len() == n && matching(q, loaded, before[a]));
                lemma_extends(q, loaded, before[a], j);
            }
            assert forall|choice: Seq<int>|
                choice.len() == n + 1 && #[trigger] matching(q, loaded, choice) implies
                choices.contains(choice) by {
                let c = choice.drop_last();
                let j = choice[n as int];
                assert(c.push(j) =~= choice);
                lemma_extends(q, loaded, c, j);
                assert(before.contains(c));
                let a = choose|a: int| 0 <= a < before.len() && before[a] == c;
                assert(lefts[a] == built(q, loaded, before[a]));
                assert(pairs_up(lefts[a], rights[j].1, join));
                assert(pairs.contains((a, j)));
                let i = choose|i: int| 0 <= i < pairs.len() && pairs[i] == (a, j);
                assert(choices[i] == choice);
            }
            assert forall|i: int, k: int| 0 <= i < k < choices.len() implies earlier(
                #[trigger] choices[i],
                #[trigger] choices[k],
            ) by {
                let (a, x) = pairs[i];
                let (b, y) = pairs[k];
                assert(a < b || (a == b && x < y));
                if a < b {
                    assert(earlier(before[a], before[b]));
                }
                lemma_earlier_push(before[a], before[b], x, y);
            }
            assert forall|i: int| 0 <= i < rows.len() implies #[trigger] rows[i] == built(
                q,
                loaded,
                choices[i],
            ) by {
                let (a, j) = pairs[i];
                assert(lefts[a] == built(q, loaded, before[a]));
                assert(before[a].len() == n);
                assert(choices[i].drop_last() =~= before[a]);
                assert(choices[i][n as int] == j);
            }
            choices
        } else {
            before
        }
    }
}

/// Each row of a result shows one of the choices, in their order.
pub open spec fn rows_show(
    rows: Seq<JsonView>,
    q: MultiQueryView,
    loaded: Loaded,
    choices: Seq<Seq<int>>,
) -> bool {
    &&& rows.len() <= choices.len()
    &&& forall|i: int|
        0 <= i < rows.len() ==> (#[trigger] rows[i]) is Object && shows(
            rows[i]->Object_0,
            q,
            loaded,
            choices[i],
        )
}

/// The rows of a query are those of its matching choices. Every choice of one
/// document per source whose joined fields are all there and hold the same
/// values, texts among them, gives exactly one row, which shows each document
/// under the alias of its source. The rows stand in the order of the sources'
/// documents. Without a limit all of them are given, with one the first of
/// them.
pub proof fn law_join_gives_every_match(q: MultiQueryView, loaded: Loaded)
    requires
        q.sources.len() > 0,
        q.joins.len() + 1 == q.sources.len(),
        distinct_aliases(q.sources),
        query_result(q, loaded) is Ok,
    ensures
        exists|choices: Seq<Seq<int>>|
            {
                let rows = query_result(q, loaded)->Ok_0;
                &&& #[trigger] lists_matching(q, loaded, q.sources.len() as int, choices)
                &&& rows_show(rows, q, loaded, choices)
                &&& q.limit is None ==> rows.len() == choices.len()
                &&& q.limit is Some ==> rows.len() == (if q.limit->0 < choices.len() {
                    q.limit->0 as nat
                } else {
                    choices.len()
                })
            },
{
    let choices = lemma_joined(q, loaded, q.joins.len());
    let all = joined_rows(q, loaded, q.joins.len())->Ok_0;
    let rows = query_result(q, loaded)->Ok_0;
    assert forall|i: int| 0 <= i < rows.len() implies (#[trigger] rows[i]) is Object && shows(
        rows[i]->Object_0,
        q,
        loaded,
        choices[i],
    ) by {
        assert(all[i] == built(q, loaded, choices[i]));
        assert(choices[i].len() == q.sources.len());
        lemma_built(q, loaded, choices[i]);
    }
    assert(lists_matching(q, loaded, q.sources.len() as int, choices));
}

/// The result of a query without a limit has a row that shows the documents of
/// every matching choice.
pub proof fn law_matching_documents_are_joined(
    q: MultiQueryView,
    loaded: Loaded,
    choice: Seq<int>,
)
    requires
        q.sources.len() > 0,
        q.joins.len() + 1 == q.sources.len(),
        distinct_aliases(q.sources),
        q.limit is None,
        query_result(q, loaded) is Ok,
        choice.len() == q.sources.len(),
    ensures
        ({
            let rows = query_result(q, loaded)->Ok_0;
            matching(q, loaded, choice) ==> exists|i: int|
                0 <= i < rows.len() && (#[trigger] rows[i]) is Object && shows(
                    rows[i]->Object_0,
                    q,
                    loaded,
                    choice,
                )
        }),
{
    law_join_gives_every_match(q, loaded);
    let rows = query_result(q, loaded)->Ok_0;
    let choices = choose|choices: Seq<Seq<int>>|
        #[trigger] lists_matching(q, loaded, q.sources.len() as int, choices) && rows_show(
            rows,
            q,
            loaded,
            choices,
        ) && rows.len() == choices.len();
    if matching(q, loaded, choice) {
        assert(choices.contains(choice));
        let i = choose|i: int| 0 <= i < choices.len() && choices[i] == choice;
        assert(rows[i] is Object);
    }
}

/// Every join names an earlier source on its left.
pub open spec fn left_sides_named(q: MultiQueryView) -> bool {
    forall|k: int| 0 <= k < q.joins.len() ==> #[trigger] left_side_named(q, k)
}

/// A join names an earlier source on its left.
pub open spec fn left_side_named(q: MultiQueryView, k: int) -> bool {
    exists|s: int| 0 <= s <= k && (#[trigger] q.sources[s]).alias == q.joins[k].left_alias
}

proof fn lemma_joined_ok(q: MultiQueryView, loaded: Loaded, n: nat)
    requires
        n < q.sources.len(),
        n <= q.joins.len(),
        distinct_aliases(q.sources),
        left_sides_named(q),
    ensures
        joined_rows(q, loaded, n) is Ok,
    decreases n,
{
    if n > 0 {
        lemma_joined_ok(q, loaded, (n - 1) as nat);
        let before = lemma_joined(q, loaded, (n - 1) as nat);
        let join = q.joins[n - 1];
        let lefts = joined_rows(q, loaded, (n - 1) as nat)->Ok_0;
        assert(left_side_named(q, n - 1));
        let s = choose|s: int|
            0 <= s <= n - 1 && (#[trigger] q.sources[s]).alias == join.left_alias;
        assert forall|a: int| 0 <= a < lefts.len() implies lookup(
            #[trigger] lefts[a],
            join.left_alias,
        ) is Some by {
            assert(lefts[a] == built(q, loaded, before[a]));
            assert(before[a].len() == n);
            lemma_built(q, loaded, before[a]);
            assert(lookup(lefts[a], q.sources[s].alias) is Some);
        }
        let pairs = lemma_rows(
            lefts,
            join,
            loaded[n as int],
            q.sources[n as int].alias,
            q.include_keys,
        );
    }
}

/// A query whose joins each name an earlier source gives rows, whatever the
/// sources hold.
pub proof fn law_named_joins_are_answered(q: MultiQueryView, loaded: Loaded)
    requires
        q.sources.len() > 0,
        q.joins.len() + 1 == q.sources.len(),
        distinct_aliases(q.sources),
        left_sides_named(q),
    ensures
        query_result(q, loaded) is Ok,
{
    lemma_joined_ok(q, loaded, q.joins.len());
}

} // verus!
